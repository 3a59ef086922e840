//! The merged timeline: every host's matching lines, those below the minimum
//! level left out, in chronological order.

use vstd::prelude::*;
use crate::journal::{LogLevel, LogLine, LogLineView, HostError};
use crate::remote::lines_view;

verus! {

/// The lines that a minimum level keeps: those at or above it.
pub open spec fn kept(min: LogLevel) -> spec_fn(LogLineView) -> bool {
    |l: LogLineView| l.level.rank() >= min.rank()
}

/// The lines whose timestamp is `t`.
pub open spec fn stamped(t: u64) -> spec_fn(LogLineView) -> bool {
    |l: LogLineView| l.timestamp_micros == t
}

/// The first index at or after `i` of a line later than `t` (`s.len()` if
/// there is none).
pub open spec fn first_later(s: Seq<LogLineView>, t: u64, i: int) -> int
    decreases s.len() - i,
{
    if i < 0 || i >= s.len() {
        s.len() as int
    } else if s[i].timestamp_micros > t {
        i
    } else {
        first_later(s, t, i + 1)
    }
}

/// `s` with `x` placed after every line no later than it.
pub open spec fn insert_in_order(s: Seq<LogLineView>, x: LogLineView) -> Seq<LogLineView> {
    let p = first_later(s, x.timestamp_micros, 0);
    s.take(p).push(x) + s.skip(p)
}

/// `s` stably sorted by timestamp, as `sort_by_key` on the timestamp orders
/// it: each line goes after every earlier line that is no later than it.
pub open spec fn sort_by_time(s: Seq<LogLineView>) -> Seq<LogLineView>
    decreases s.len(),
{
    if s.len() == 0 {
        s
    } else {
        insert_in_order(sort_by_time(s.drop_last()), s.last())
    }
}

/// The timeline of `lines`: those at or above `min` (a line of unknown
/// level always is), stably sorted by timestamp.
pub open spec fn timeline_of(lines: Seq<LogLineView>, min: LogLevel) -> Seq<LogLineView> {
    sort_by_time(lines.filter(kept(min)))
}

/// Whether `s` is in chronological order.
pub open spec fn chronological(s: Seq<LogLineView>) -> bool {
    forall|i: int, j: int|
        0 <= i <= j < s.len() ==> #[trigger] s[i].timestamp_micros <= #[trigger] s[j].timestamp_micros
}

proof fn lemma_first_later_bounds(s: Seq<LogLineView>, t: u64, i: int)
    requires
        0 <= i <= s.len(),
    ensures
        i <= first_later(s, t, i) <= s.len(),
        forall|k: int| i <= k < first_later(s, t, i) ==> s[k].timestamp_micros <= t,
        first_later(s, t, i) < s.len() ==> s[first_later(s, t, i)].timestamp_micros > t,
    decreases s.len() - i,
{
    if i < s.len() && s[i].timestamp_micros <= t {
        lemma_first_later_bounds(s, t, i + 1);
    }
}

/// Where `x` goes in `s`: the first index of a line later than it.
fn insertion_point(out: &Vec<LogLine>, t: u64) -> (p: usize)
    ensures
        p as int == first_later(lines_view(out@), t, 0),
{
    let ghost s = lines_view(out@);
    let mut i: usize = 0;
    while i < out.len()
        invariant
            i <= out.len(),
            s == lines_view(out@),
            first_later(s, t, 0) == first_later(s, t, i as int),
        decreases out.len() - i,
    {
        assert(s[i as int] == out@[i as int]@);
        if out[i].timestamp_micros > t {
            return i;
        }
        i += 1;
    }
    i
}

/// The merged timeline of `lines` (see `timeline_of`): those at or above
/// `min_level`, in chronological order, lines with equal timestamps in the
/// order in which they came.
pub fn build_timeline(lines: &Vec<LogLine>, min_level: LogLevel) -> (r: Vec<LogLine>)
    ensures
        lines_view(r@) == timeline_of(lines_view(lines@), min_level),
{
    let ghost input = lines_view(lines@);
    let mut out: Vec<LogLine> = Vec::new();
    let mut i: usize = 0;
    while i < lines.len()
        invariant
            i <= lines.len(),
            input == lines_view(lines@),
            lines_view(out@) == sort_by_time(input.take(i as int).filter(kept(min_level))),
        decreases lines.len() - i,
    {
        let ghost before = input.take(i as int).filter(kept(min_level));
        assert(input.take(i + 1) =~= input.take(i as int).push(input[i as int]));
        assert(input[i as int] == lines@[i as int]@);
        proof {
            input.take(i as int).lemma_filter_push(input[i as int], kept(min_level));
        }
        if lines[i].level.is_at_least(&min_level) {
            let x = lines[i].duplicate();
            let p = insertion_point(&out, x.timestamp_micros);
            proof {
                lemma_first_later_bounds(lines_view(out@), x.timestamp_micros, 0);
            }
            let ghost old_view = lines_view(out@);
            out.insert(p, x);
            assert(input.take(i + 1).filter(kept(min_level)) == before.push(x@));
            assert(before.push(x@).drop_last() =~= before);
            assert(lines_view(out@) =~= insert_in_order(old_view, x@));
        } else {
            assert(input.take(i + 1).filter(kept(min_level)) == before);
        }
        i += 1;
    }
    assert(input.take(i as int) =~= input);
    out
}

proof fn lemma_insert_in_order_chronological(s: Seq<LogLineView>, x: LogLineView)
    requires
        chronological(s),
    ensures
        chronological(insert_in_order(s, x)),
        insert_in_order(s, x).len() == s.len() + 1,
{
    let p = first_later(s, x.timestamp_micros, 0);
    lemma_first_later_bounds(s, x.timestamp_micros, 0);
    let r = insert_in_order(s, x);
    assert(r.len() == s.len() + 1);
    assert forall|i: int, j: int| 0 <= i <= j < r.len() implies #[trigger] r[i].timestamp_micros
        <= #[trigger] r[j].timestamp_micros by {
        if i < p && j < p {
            assert(r[i] == s[i] && r[j] == s[j]);
        } else if i < p && j == p {
            assert(r[i] == s[i]);
        } else if i < p {
            assert(r[i] == s[i] && r[j] == s[j - 1]);
        } else if i == p && j > p {
            assert(r[j] == s[j - 1]);
            assert(s[p].timestamp_micros > x.timestamp_micros);
            assert(s[p].timestamp_micros <= s[j - 1].timestamp_micros);
        } else if i > p {
            assert(r[i] == s[i - 1] && r[j] == s[j - 1]);
        }
    }
}

/// The timeline is in chronological order.
pub proof fn lemma_sort_by_time_chronological(s: Seq<LogLineView>)
    ensures
        chronological(sort_by_time(s)),
        sort_by_time(s).len() == s.len(),
    decreases s.len(),
{
    if s.len() > 0 {
        lemma_sort_by_time_chronological(s.drop_last());
        lemma_insert_in_order_chronological(sort_by_time(s.drop_last()), s.last());
    }
}

proof fn lemma_insert_in_order_stamped(s: Seq<LogLineView>, x: LogLineView, t: u64)
    requires
        chronological(s),
    ensures
        insert_in_order(s, x).filter(stamped(t)) == s.push(x).filter(stamped(t)),
{
    broadcast use vstd::seq_lib::group_seq_properties;

    let p = first_later(s, x.timestamp_micros, 0);
    lemma_first_later_bounds(s, x.timestamp_micros, 0);
    let a = s.take(p);
    let b = s.skip(p);
    assert(s =~= a + b);
    Seq::filter_distributes_over_add(a.push(x), b, stamped(t));
    Seq::filter_distributes_over_add(a, b, stamped(t));
    a.lemma_filter_push(x, stamped(t));
    s.lemma_filter_push(x, stamped(t));
    if x.timestamp_micros == t {
        assert forall|k: int| 0 <= k < b.len() implies !stamped(t)(b[k]) by {
            assert(b[k] == s[p + k]);
            assert(s[p].timestamp_micros <= s[p + k].timestamp_micros);
        }
        b.lemma_all_neg_filter_empty(stamped(t));
        assert(b.filter(stamped(t)) =~= Seq::<LogLineView>::empty());
        assert(insert_in_order(s, x).filter(stamped(t)) =~= a.filter(stamped(t)).push(x));
        assert(s.filter(stamped(t)) =~= a.filter(stamped(t)));
    } else {
        assert(insert_in_order(s, x).filter(stamped(t)) =~= a.filter(stamped(t)) + b.filter(
            stamped(t),
        ));
    }
}

/// Sorting by time is stable and loses nothing: for every timestamp, the
/// lines with that timestamp come out exactly as they went in, in the same
/// order.
pub proof fn lemma_sort_by_time_stable(s: Seq<LogLineView>, t: u64)
    ensures
        sort_by_time(s).filter(stamped(t)) == s.filter(stamped(t)),
    decreases s.len(),
{
    if s.len() > 0 {
        let init = s.drop_last();
        lemma_sort_by_time_stable(init, t);
        lemma_sort_by_time_chronological(init);
        lemma_insert_in_order_stamped(sort_by_time(init), s.last(), t);
        sort_by_time(init).lemma_filter_push(s.last(), stamped(t));
        init.lemma_filter_push(s.last(), stamped(t));
        assert(init.push(s.last()) =~= s);
    }
}

/// The merged timeline is chronological, and for every timestamp it holds
/// exactly the lines at or above the minimum level with that timestamp, in
/// the order in which they came.
pub proof fn lemma_timeline(lines: Seq<LogLineView>, min: LogLevel, t: u64)
    ensures
        chronological(timeline_of(lines, min)),
        timeline_of(lines, min).filter(stamped(t)) == lines.filter(kept(min)).filter(stamped(t)),
{
    lemma_sort_by_time_chronological(lines.filter(kept(min)));
    lemma_sort_by_time_stable(lines.filter(kept(min)), t);
}

/// The levels are ordered Debug < Info < Warning < Error < Unknown: a
/// minimum level keeps exactly the lines of its own level and of the levels
/// after it, and hides those of every level before it.
pub proof fn lemma_min_level_order(l: LogLineView)
    ensures
        kept(LogLevel::Debug)(l),
        kept(LogLevel::Info)(l) <==> l.level != LogLevel::Debug,
        kept(LogLevel::Warning)(l) <==> (l.level != LogLevel::Debug && l.level != LogLevel::Info),
        kept(LogLevel::Error)(l) <==> (l.level == LogLevel::Error || l.level == LogLevel::Unknown),
        kept(LogLevel::Unknown)(l) <==> l.level == LogLevel::Unknown,
{
}

/// Nothing in the merged timeline lies below the minimum level: with
/// `--min-level info` no DEBUG line is shown, and with `--min-level error`
/// only ERROR lines and unclassified ones are.
pub proof fn lemma_timeline_hides_lower(lines: Seq<LogLineView>, min: LogLevel, k: int)
    requires
        0 <= k < timeline_of(lines, min).len(),
    ensures
        lines.contains(timeline_of(lines, min)[k]),
        kept(min)(timeline_of(lines, min)[k]),
        min == LogLevel::Info ==> timeline_of(lines, min)[k].level != LogLevel::Debug,
        min == LogLevel::Error ==> (timeline_of(lines, min)[k].level == LogLevel::Error
            || timeline_of(lines, min)[k].level == LogLevel::Unknown),
{
    let x = timeline_of(lines, min)[k];
    let s = timeline_of(lines, min);
    let f = lines.filter(kept(min));
    let st = stamped(x.timestamp_micros);
    lemma_timeline(lines, min, x.timestamp_micros);
    // x is among the timeline's lines of its own timestamp ...
    s.filter_lemma(st);
    assert(s.filter(st).contains(x));
    // ... hence among the kept input lines of that timestamp.
    assert(f.filter(st).contains(x));
    f.lemma_filter_contains_rev(st, x);
    let i = choose|i: int| 0 <= i < f.len() && f[i] == x;
    lines.filter_lemma(kept(min));
    assert(kept(min)(f[i]));
    lines.lemma_filter_contains_rev(kept(min), x);
    lemma_min_level_order(x);
}

/// No minimum level hides a line of unknown level.
pub proof fn lemma_unknown_always_kept(l: LogLineView, min: LogLevel)
    requires
        l.level == LogLevel::Unknown,
    ensures
        kept(min)(l),
{
}


/// The view of a host error: (host, reason).
pub open spec fn host_error_view(e: HostError) -> (Seq<char>, Seq<char>) {
    (e.host@, e.reason@)
}

/// The lines that the successful hosts of `rs` gave, host after host.
pub open spec fn gathered_lines_of(rs: Seq<(String, Result<Vec<LogLine>, String>)>) -> Seq<
    LogLineView,
>
    decreases rs.len(),
{
    if rs.len() == 0 {
        Seq::empty()
    } else {
        gathered_lines_of(rs.drop_last()) + match rs.last().1 {
            Ok(v) => lines_view(v@),
            Err(_) => Seq::<LogLineView>::empty(),
        }
    }
}

/// The (host, reason) of each failed host of `rs`, in order.
pub open spec fn gathered_errors_of(rs: Seq<(String, Result<Vec<LogLine>, String>)>) -> Seq<
    (Seq<char>, Seq<char>),
>
    decreases rs.len(),
{
    if rs.len() == 0 {
        Seq::empty()
    } else {
        gathered_errors_of(rs.drop_last()) + match rs.last().1 {
            Ok(_) => Seq::<(Seq<char>, Seq<char>)>::empty(),
            Err(e) => seq![(rs.last().0@, e@)],
        }
    }
}

/// Gathers each host's outcome: the lines of the hosts that answered, one
/// host after another, and an error for each host that did not.
pub fn gather_results(results: &Vec<(String, Result<Vec<LogLine>, String>)>) -> (r: (
    Vec<LogLine>,
    Vec<HostError>,
))
    ensures
        lines_view(r.0@) == gathered_lines_of(results@),
        r.1@.map_values(|e: HostError| host_error_view(e)) == gathered_errors_of(results@),
{
    let mut lines: Vec<LogLine> = Vec::new();
    let mut errors: Vec<HostError> = Vec::new();
    let mut i: usize = 0;
    while i < results.len()
        invariant
            i <= results.len(),
            lines_view(lines@) == gathered_lines_of(results@.take(i as int)),
            errors@.map_values(|e: HostError| host_error_view(e)) == gathered_errors_of(
                results@.take(i as int),
            ),
        decreases results.len() - i,
    {
        assert(results@.take(i + 1).drop_last() =~= results@.take(i as int));
        assert(results@.take(i + 1).last() == results@[i as int]);
        match &results[i].1 {
            Ok(v) => {
                let ghost before = lines_view(lines@);
                let mut k: usize = 0;
                while k < v.len()
                    invariant
                        k <= v.len(),
                        lines_view(lines@) == before + lines_view(v@.take(k as int)),
                    decreases v.len() - k,
                {
                    let ghost prev = lines@;
                    let d = v[k].duplicate();
                    lines.push(d);
                    assert(lines@ == prev.push(d));
                    assert(lines_view(prev.push(d)) =~= lines_view(prev).push(d@));
                    assert(v@.take(k + 1) =~= v@.take(k as int).push(v@[k as int]));
                    assert(lines_view(v@.take(k + 1)) =~= lines_view(v@.take(k as int)).push(
                        v@[k as int]@,
                    ));
                    k += 1;
                    assert(lines_view(lines@) =~= before + lines_view(v@.take(k as int)));
                }
                assert(v@.take(k as int) =~= v@);
                assert(errors@.map_values(|e: HostError| host_error_view(e)) =~= gathered_errors_of(
                    results@.take(i + 1),
                ));
            },
            Err(e) => {
                let ghost before = errors@.map_values(|e: HostError| host_error_view(e));
                errors.push(HostError { host: results[i].0.clone(), reason: e.clone() });
                assert(errors@.map_values(|e: HostError| host_error_view(e)) =~= before.push(
                    host_error_view(errors@.last()),
                ));
                assert(lines_view(lines@) =~= gathered_lines_of(results@.take(i + 1)));
            },
        }
        i += 1;
    }
    assert(results@.take(i as int) =~= results@);
    (lines, errors)
}

} // verus!
