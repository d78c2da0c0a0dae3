//! What the log of recalls tells, view by view.
use crate::context::places;
use crate::recall::{
    asked_about, hotspot_lines, log_shown, print_recall_log, recall_log_view, topics_asked,
    write_hotspot, Hotspot, LogView, RecallLogRow, RecallLogV,
};
use crate::render::{say, say_all};
use crate::sort::{at_most, is_order, order_desc, ordered};
use crate::store::Rank;
use crate::text::{decimal, i64_text, int_text, texts, usize_text};
use vstd::prelude::*;

verus! {

/// A floor for scores, with two places as it is shown.
#[derive(Debug)]
pub struct Threshold {
    pub rank: Rank,
    pub shown: String,
}

/// Which views of the log are asked for; all recent entries where none is.
#[derive(Debug)]
pub struct RecallStatsArgs {
    /// Questions that found little.
    pub gaps: bool,
    pub gaps_threshold: Threshold,
    /// Questions by topic.
    pub hotspots: bool,
    /// Questions that a search by words would have missed.
    pub recall_vs_search: bool,
    pub rvs_threshold: Threshold,
    pub days: i64,
    pub limit: usize,
}

/// The average score of a topic, and as it is shown.
#[derive(Debug)]
pub struct Average {
    pub rank: Rank,
    pub shown: String,
}

/// The keys by which topics are ordered.
pub open spec fn average_keys(avgs: Seq<Average>) -> Seq<(i64, i64)> {
    avgs.map_values(|a: Average| (a.rank.key, 0i64))
}

/// The lines of one topic.
pub open spec fn spot_lines(log: Seq<RecallLogRow>, h: Hotspot, a: Average) -> Seq<Seq<char>> {
    hotspot_lines(
        h.topic@,
        a.shown@,
        h.at@.len(),
        Seq::new(at_most(3, h.at@.len()), |i: int| log[h.at@[i] as int].query@),
    )
}

/// The lines of the first `n` topics, the best answered first.
pub open spec fn spots_lines(
    log: Seq<RecallLogRow>,
    spots: Seq<Hotspot>,
    avgs: Seq<Average>,
    n: nat,
) -> Seq<Seq<char>>
    decreases n,
{
    if n == 0 {
        Seq::empty()
    } else {
        let i = ordered(average_keys(avgs))[n - 1] as int;
        spots_lines(log, spots, avgs, (n - 1) as nat) + spot_lines(log, spots[i], avgs[i])
    }
}

/// The title of the questions that found little.
pub open spec fn gaps_title(a: RecallStatsArgs) -> Seq<char> {
    "## Weak-recall queries (top_score < "@ + a.gaps_threshold.shown@ + ", last "@ + int_text(
        a.days as int,
    ) + " days)\n"@
}

/// The title of the topics.
pub open spec fn spots_title(a: RecallStatsArgs) -> Seq<char> {
    "## Hotspots (queries grouped by first significant token, last "@ + int_text(a.days as int)
        + " days)\n"@
}

/// The title of the questions that a search by words would have missed.
pub open spec fn missed_title(a: RecallStatsArgs) -> Seq<char> {
    "## Recall-found, FTS-missed (top_score >= "@ + a.rvs_threshold.shown@
        + ", fts_hits = 0, last "@ + int_text(a.days as int) + " days)\n"@
}

/// The title of the recent entries.
pub open spec fn recent_title(a: RecallStatsArgs) -> Seq<char> {
    "## Recent recall calls (last "@ + decimal(a.limit as nat) + ")\n"@
}

/// A part, where it is asked for.
pub open spec fn part_if(asked: bool, lines: Seq<Seq<char>>) -> Seq<Seq<char>> {
    if asked {
        lines
    } else {
        Seq::empty()
    }
}

/// Everything that is shown.
pub open spec fn stats_lines(
    a: RecallStatsArgs,
    since: i64,
    log: Seq<RecallLogRow>,
    spots: Seq<Hotspot>,
    avgs: Seq<Average>,
) -> Seq<Seq<char>> {
    let all = recall_log_view(log);
    let limit = a.limit as nat;
    part_if(
        a.gaps,
        log_shown(
            gaps_title(a),
            all,
            LogView::Gaps { since, threshold: a.gaps_threshold.rank },
            limit,
        ),
    ) + part_if(
        a.hotspots,
        seq![spots_title(a)] + spots_lines(log, spots, avgs, at_most(limit, avgs.len())) + seq![
            ""@,
        ],
    ) + part_if(
        a.recall_vs_search,
        log_shown(
            missed_title(a),
            all,
            LogView::Missed { since, threshold: a.rvs_threshold.rank },
            limit,
        ),
    ) + part_if(
        !a.gaps && !a.hotspots && !a.recall_vs_search,
        log_shown(recent_title(a), all, LogView::Recent, limit),
    )
}

/// Whether topics stand in a log, one average to each.
pub open spec fn spots_in(log: Seq<RecallLogRow>, spots: Seq<Hotspot>, avgs: Seq<Average>) -> bool {
    &&& spots.len() == avgs.len()
    &&& forall|i: int, k: int|
        0 <= i < spots.len() && 0 <= k < spots[i].at@.len() ==> (#[trigger] spots[i].at@[k])
            < log.len()
}

/// Writes the part on topics.
fn write_spots(
    args: &RecallStatsArgs,
    log: &Vec<RecallLogRow>,
    spots: &Vec<Hotspot>,
    avgs: &Vec<Average>,
) -> (r: Vec<String>)
    requires
        spots_in(log@, spots@, avgs@),
    ensures
        texts(r@) == seq![spots_title(*args)] + spots_lines(
            log@,
            spots@,
            avgs@,
            at_most(args.limit as nat, avgs@.len()),
        ) + seq![""@],
{
    let mut keys: Vec<(i64, i64)> = Vec::new();
    let mut i: usize = 0;
    while i < avgs.len()
        invariant
            i <= avgs@.len(),
            keys@.len() == i,
            forall|k: int| 0 <= k < i ==> #[trigger] keys@[k] == average_keys(avgs@)[k],
        decreases avgs@.len() - i,
    {
        keys.push((avgs[i].rank.key, 0));
        i = i + 1;
    }
    assert(keys@ =~= average_keys(avgs@));
    let order = order_desc(&keys);
    let n: usize = if order.len() < args.limit {
        order.len()
    } else {
        args.limit
    };
    let mut l = "## Hotspots (queries grouped by first significant token, last ".to_string();
    l.append(i64_text(args.days).as_str());
    l.append(" days)\n");
    let ghost head = seq![l@];
    let mut out: Vec<String> = Vec::new();
    out.push(l);
    let mut k: usize = 0;
    assert(texts(out@) =~= head + spots_lines(log@, spots@, avgs@, 0));
    while k < n
        invariant
            k <= n <= order@.len(),
            spots_in(log@, spots@, avgs@),
            order@ == ordered(average_keys(avgs@)),
            is_order(average_keys(avgs@), order@),
            texts(out@) == head + spots_lines(log@, spots@, avgs@, k as nat),
        decreases n - k,
    {
        let p = order[k];
        assert(p < average_keys(avgs@).len());
        let h = &spots[p];
        assert forall|x: int| 0 <= x < h.at@.len() implies (#[trigger] h.at@[x]) < log@.len() by {
            assert(spots@[p as int].at@[x] < log@.len());
        }
        let block = write_hotspot(h, avgs[p].shown.as_str(), log);
        let ghost b = texts(block@);
        let ghost before = spots_lines(log@, spots@, avgs@, k as nat);
        say_all(&mut out, block);
        assert(head + before + b =~= head + (before + b));
        assert(b == spot_lines(log@, spots@[p as int], avgs@[p as int]));
        k = k + 1;
    }
    let ghost before = texts(out@);
    say(&mut out, "".to_string());
    assert(texts(out@) =~= before + seq![""@]);
    out
}

/// Whether topics are those asked about since some time, each with the positions
/// of its questions in the log, and one average to each.
pub open spec fn spots_of(
    log: Seq<RecallLogRow>,
    since: i64,
    spots: Seq<Hotspot>,
    avgs: Seq<Average>,
) -> bool {
    let all = recall_log_view(log);
    &&& spots.len() == avgs.len()
    &&& spots.map_values(|h: Hotspot| h.topic@) == topics_asked(all, since)
    &&& forall|i: int|
        0 <= i < spots.len() ==> places((#[trigger] spots[i]).at@) == asked_about(
            all,
            since,
            spots[i].topic@,
        )
}

/// The questions about a topic stand in the log.
proof fn lemma_asked_about(log: Seq<RecallLogV>, since: i64, topic: Seq<char>)
    ensures
        forall|k: int|
            0 <= k < asked_about(log, since, topic).len() ==> 0 <= (#[trigger] asked_about(
                log,
                since,
                topic,
            )[k]) < log.len(),
    decreases log.len(),
{
    if log.len() > 0 {
        lemma_asked_about(log.drop_last(), since, topic);
        let init = asked_about(log.drop_last(), since, topic);
        let at = asked_about(log, since, topic);
        assert forall|k: int| 0 <= k < at.len() implies 0 <= (#[trigger] at[k]) < log.len() by {
            if k < init.len() {
                assert(at[k] == init[k]);
            }
        }
    }
}

/// Topics that were asked about stand in the log.
proof fn lemma_spots_in(
    log: Seq<RecallLogRow>,
    since: i64,
    spots: Seq<Hotspot>,
    avgs: Seq<Average>,
)
    requires
        spots_of(log, since, spots, avgs),
    ensures
        spots_in(log, spots, avgs),
{
    let all = recall_log_view(log);
    assert forall|i: int, k: int| 0 <= i < spots.len() && 0 <= k < spots[i].at@.len() implies (
    #[trigger] spots[i].at@[k]) < log.len() by {
        lemma_asked_about(all, since, spots[i].topic@);
        assert(places(spots[i].at@)[k] == asked_about(all, since, spots[i].topic@)[k]);
    }
}

/// Shows the views of the log that are asked for. The topics are those of
/// [`crate::recall::hotspots`], with their averages, one to each.
pub fn recall_stats(
    args: &RecallStatsArgs,
    since: i64,
    log: &Vec<RecallLogRow>,
    spots: &Vec<Hotspot>,
    avgs: &Vec<Average>,
) -> (r: Vec<String>)
    requires
        spots_of(log@, since, spots@, avgs@),
    ensures
        texts(r@) == stats_lines(*args, since, log@, spots@, avgs@),
{
    proof {
        lemma_spots_in(log@, since, spots@, avgs@);
    }
    let mut out: Vec<String> = Vec::new();
    assert(texts(out@) =~= Seq::<Seq<char>>::empty());
    if args.gaps {
        let mut t = "## Weak-recall queries (top_score < ".to_string();
        t.append(args.gaps_threshold.shown.as_str());
        t.append(", last ");
        t.append(i64_text(args.days).as_str());
        t.append(" days)\n");
        let v = LogView::Gaps { since, threshold: args.gaps_threshold.rank };
        say_all(&mut out, print_recall_log(t.as_str(), log, v, args.limit));
    }
    let ghost first = part_if(
        args.gaps,
        log_shown(
            gaps_title(*args),
            recall_log_view(log@),
            LogView::Gaps { since, threshold: args.gaps_threshold.rank },
            args.limit as nat,
        ),
    );
    assert(texts(out@) =~= first);
    if args.hotspots {
        say_all(&mut out, write_spots(args, log, spots, avgs));
    }
    let ghost second = part_if(
        args.hotspots,
        seq![spots_title(*args)] + spots_lines(
            log@,
            spots@,
            avgs@,
            at_most(args.limit as nat, avgs@.len()),
        ) + seq![""@],
    );
    assert(texts(out@) =~= first + second);
    if args.recall_vs_search {
        let mut t = "## Recall-found, FTS-missed (top_score >= ".to_string();
        t.append(args.rvs_threshold.shown.as_str());
        t.append(", fts_hits = 0, last ");
        t.append(i64_text(args.days).as_str());
        t.append(" days)\n");
        let v = LogView::Missed { since, threshold: args.rvs_threshold.rank };
        say_all(&mut out, print_recall_log(t.as_str(), log, v, args.limit));
    }
    let ghost third = part_if(
        args.recall_vs_search,
        log_shown(
            missed_title(*args),
            recall_log_view(log@),
            LogView::Missed { since, threshold: args.rvs_threshold.rank },
            args.limit as nat,
        ),
    );
    assert(texts(out@) =~= first + second + third);
    if !args.gaps && !args.hotspots && !args.recall_vs_search {
        let mut t = "## Recent recall calls (last ".to_string();
        t.append(usize_text(args.limit).as_str());
        t.append(")\n");
        say_all(&mut out, print_recall_log(t.as_str(), log, LogView::Recent, args.limit));
    }
    let ghost fourth = part_if(
        !args.gaps && !args.hotspots && !args.recall_vs_search,
        log_shown(
            recent_title(*args),
            recall_log_view(log@),
            LogView::Recent,
            args.limit as nat,
        ),
    );
    assert(texts(out@) =~= first + second + third + fourth);
    out
}

} // verus!
