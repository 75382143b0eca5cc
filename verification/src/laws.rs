//! Laws of the decoder, stated over the spec-level transitions.
//!
//! The framing bound lives beside the framer
//! ([`crate::framer::lemma_frame_count`]); the clamping invariant is part
//! of every scope's well-formedness ([`crate::scope::signal_ranged`],
//! kept by `Scope::feed`).  Here stand the laws that relate several
//! steps: the capacity round-trip, the data-row disambiguation, and
//! what re-declaring a scope discards.
use crate::registry::{
    find_object, spec_object_name, spec_registry_feed, DebugObjectV,
};
use crate::scope::{spec_append, spec_feed_values, spec_parse_row, spec_scope_feed, spec_scope_new, ScopeV};
use crate::line::spec_debug_line;
use crate::num::spec_clamp;
use crate::strutil::spec_strip_quotes;
use vstd::prelude::*;

verus! {

/// A whole stream of token lists fed in order.
pub open spec fn spec_feed_all(s: ScopeV, stream: Seq<Seq<Seq<char>>>) -> ScopeV
    decreases stream.len(),
{
    if stream.len() == 0 {
        s
    } else {
        spec_feed_all(spec_scope_feed(s, stream[0]), stream.skip(1))
    }
}

proof fn lemma_capacity_step(s: ScopeV, rows: Seq<Seq<Seq<char>>>, start: int)
    requires
        s.samples >= 1,
        s.signals.len() == 1,
        s.signals[0].values.len() == start,
        0 <= start <= s.samples - 1,
        forall|i: int|
            0 <= i < rows.len() ==> spec_parse_row(#[trigger] rows[i]) is Some
                && spec_parse_row(rows[i])->0.len() >= 1,
    ensures
        spec_feed_all(s, rows).signals.len() == 1,
        spec_feed_all(s, rows).samples == s.samples,
        spec_feed_all(s, rows).signals[0].values.len() == if start + rows.len() <= s.samples - 1 {
            start + rows.len()
        } else {
            s.samples - 1
        },
    decreases rows.len(),
{
    if rows.len() > 0 {
        let s1 = spec_scope_feed(s, rows[0]);
        let vals = spec_parse_row(rows[0])->0;
        assert(s1.signals =~= spec_feed_values(s.signals, vals, s.samples));
        assert(s1.signals[0] == spec_append(s.signals[0], vals[0], s.samples));
        crate::scope::lemma_evict_len(
            s.signals[0].values.push(
                spec_clamp(vals[0], s.signals[0].min, s.signals[0].max),
            ),
            s.samples,
        );
        assert(forall|i: int|
            0 <= i < rows.skip(1).len() ==> spec_parse_row(#[trigger] rows.skip(1)[i]) is Some
                && spec_parse_row(rows.skip(1)[i])->0.len() >= 1) by {
            assert(forall|i: int|
                0 <= i < rows.skip(1).len() ==> rows.skip(1)[i] == #[trigger] rows[i + 1]);
        }
        lemma_capacity_step(s1, rows.skip(1), s1.signals[0].values.len() as int);
    }
}

/// Capacity round-trip: a scope declared with capacity `k` and one fresh
/// signal, fed `m` data rows, retains exactly `min(m, k - 1)` samples —
/// one slot of the declared capacity always stays free.
pub proof fn lemma_capacity_round_trip(s: ScopeV, rows: Seq<Seq<Seq<char>>>)
    requires
        s.samples >= 1,
        s.signals.len() == 1,
        s.signals[0].values.len() == 0,
        forall|i: int|
            0 <= i < rows.len() ==> spec_parse_row(#[trigger] rows[i]) is Some
                && spec_parse_row(rows[i])->0.len() >= 1,
    ensures
        spec_feed_all(s, rows).signals.len() == 1,
        spec_feed_all(s, rows).signals[0].values.len() == if rows.len() <= s.samples - 1 {
            rows.len() as int
        } else {
            s.samples - 1
        },
{
    lemma_capacity_step(s, rows, 0);
}

/// Disambiguation: an all-numeric token list is always a data row, never
/// a signal declaration — however it is shaped, it attaches nothing and
/// every signal keeps its declaration.
pub proof fn lemma_numeric_is_row(s: ScopeV, toks: Seq<Seq<char>>)
    requires
        spec_parse_row(toks) is Some,
    ensures
        spec_scope_feed(s, toks).signals.len() == s.signals.len(),
        forall|i: int|
            0 <= i < s.signals.len() ==> {
                let t = #[trigger] spec_scope_feed(s, toks).signals[i];
                t.name == s.signals[i].name && t.min == s.signals[i].min && t.max
                    == s.signals[i].max && t.color == s.signals[i].color
            },
{
    let vals = spec_parse_row(toks)->0;
    assert(spec_scope_feed(s, toks).signals =~= spec_feed_values(s.signals, vals, s.samples));
}

/// Re-declaration: routing a `` `SCOPE X … `` line (while no object is
/// literally named `SCOPE`) leaves under the name `X` a scope with no
/// signals — whatever signals an earlier `X` had are discarded whole.
pub proof fn lemma_redeclare_discards(rs: Seq<DebugObjectV>, line: Seq<char>)
    requires
        spec_debug_line(line) is Some,
        spec_debug_line(line)->0.keyword == "SCOPE"@,
        spec_debug_line(line)->0.tokens.len() >= 1,
        find_object(rs, "SCOPE"@) == rs.len(),
    ensures
        ({
            let name = spec_strip_quotes(spec_debug_line(line)->0.tokens[0]);
            let rs2 = spec_registry_feed(rs, line);
            let j = find_object(rs2, name);
            &&& j < rs2.len()
            &&& spec_object_name(rs2[j]) == name
            &&& (rs2[j] matches DebugObjectV::Scope(sc) && sc.signals.len() == 0)
        }),
{
    let dl = spec_debug_line(line)->0;
    let name = spec_strip_quotes(dl.tokens[0]);
    let sc = spec_scope_new(dl.tokens)->Ok_0;
    crate::config::lemma_scan_err_kind(
        dl.tokens,
        1,
        (crate::config::default_w(), crate::config::default_h()),
        crate::config::DEFAULT_SAMPLES as int,
    );
    assert(spec_scope_new(dl.tokens) is Ok);
    assert(sc.name == name && sc.signals.len() == 0);
    let o = DebugObjectV::Scope(sc);
    let j = find_object(rs, name);
    crate::registry::lemma_find_object_le(rs, name);
    let rs2 = spec_registry_feed(rs, line);
    if j < rs.len() {
        assert(rs2 =~= rs.update(j, o));
        crate::registry::lemma_find_object_at(rs2, name, j);
    } else {
        assert(rs2 =~= rs.push(o));
        assert(forall|t: int|
            0 <= t < rs.len() ==> spec_object_name(#[trigger] rs2[t]) == spec_object_name(rs[t]));
        crate::registry::lemma_find_object_at(rs2, name, rs.len() as int);
    }
}

} // verus!
