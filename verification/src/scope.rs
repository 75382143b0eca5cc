//! Live scopes: named collections of signals with bounded, clamped,
//! rolling sample histories.
//!
//! A scope is created by a `SCOPE` declaration and then fed token lists:
//! an all-numeric list is a data row, appended pairwise by position to the
//! signals; any other list is tried as a signal declaration; what fails
//! both is dropped.  Appending clamps into the signal's `[min, max]` and
//! then evicts oldest-first while the history length reaches the scope's
//! capacity, so at most `capacity - 1` samples are retained.
use crate::color::{black, grey, Color, Legend};
use crate::config::{
    spec_scope_config, spec_signal_config, zero_num, ScopeConfig, ScopeConfigV, ScopeSignalConfig,
    ScopeSignalConfigV,
};
use crate::line::{DebugObjectError, ErrV};
use crate::num::{clamp, in_range, num_lt, spec_clamp, wf_num, Num, NumV};
use crate::numparse::{parse_num, spec_parse_num};
use crate::strutil::strip_single_quotes;
use std::collections::VecDeque;
use vstd::prelude::*;

verus! {

/// The mathematical content of a [`ScopeSignal`].
pub struct SignalV {
    pub name: Seq<char>,
    pub min: NumV,
    pub max: NumV,
    pub y_size: NumV,
    pub y_base: NumV,
    pub legend: Option<Legend>,
    pub color: Color,
    pub values: Seq<NumV>,
}

/// One signal: its declaration and its retained history, newest at the
/// back.
pub struct ScopeSignal {
    pub name: String,
    pub min: Num,
    pub max: Num,
    pub y_size: Num,
    pub y_base: Num,
    pub legend: Option<Legend>,
    pub color: Color,
    pub values: VecDeque<Num>,
}

impl View for ScopeSignal {
    type V = SignalV;

    open spec fn view(&self) -> SignalV {
        SignalV {
            name: self.name@,
            min: self.min@,
            max: self.max@,
            y_size: self.y_size@,
            y_base: self.y_base@,
            legend: self.legend,
            color: self.color,
            values: self.values@.map_values(|n: Num| n@),
        }
    }
}

pub open spec fn values_wf(vals: Seq<NumV>) -> bool {
    forall|i: int| 0 <= i < vals.len() ==> wf_num(#[trigger] vals[i])
}

pub open spec fn values_in_range(vals: Seq<NumV>, min: NumV, max: NumV) -> bool {
    forall|i: int| 0 <= i < vals.len() ==> in_range(#[trigger] vals[i], min, max)
}

pub open spec fn wf_signal(s: SignalV) -> bool {
    wf_num(s.min) && wf_num(s.max) && wf_num(s.y_size) && wf_num(s.y_base) && values_wf(s.values)
}

/// The clamping invariant: when the declared range is ordered, every
/// retained value lies in it.
pub open spec fn signal_ranged(s: SignalV) -> bool {
    !num_lt(s.max, s.min) ==> values_in_range(s.values, s.min, s.max)
}

/// How many samples a scope of the given capacity retains at most: one
/// less than the capacity (eviction keeps the length strictly under it).
pub open spec fn retained_limit(samples: int) -> int {
    if samples >= 1 {
        samples - 1
    } else {
        0
    }
}

/// Oldest-first eviction: drop from the front while the length reaches
/// `samples` (and something is left to drop).
pub open spec fn spec_evict(vals: Seq<NumV>, samples: int) -> Seq<NumV>
    decreases vals.len(),
{
    if vals.len() >= samples && vals.len() > 0 {
        spec_evict(vals.skip(1), samples)
    } else {
        vals
    }
}

/// Appending one value to one signal: clamp, push to the back, evict.
pub open spec fn spec_append(sig: SignalV, v: NumV, samples: int) -> SignalV {
    SignalV { values: spec_evict(sig.values.push(spec_clamp(v, sig.min, sig.max)), samples), ..sig }
}

/// A data row applied pairwise by position: signal `i` takes value `i`;
/// extra values are ignored, signals past the row keep their history.
pub open spec fn spec_feed_values(sigs: Seq<SignalV>, vals: Seq<NumV>, samples: int) -> Seq<
    SignalV,
> {
    Seq::new(
        sigs.len(),
        |i: int|
            if i < vals.len() {
                spec_append(sigs[i], vals[i], samples)
            } else {
                sigs[i]
            },
    )
}

proof fn lemma_evict_contains(vals: Seq<NumV>, samples: int, x: NumV)
    requires
        spec_evict(vals, samples).contains(x),
    ensures
        vals.contains(x),
    decreases vals.len(),
{
    if vals.len() >= samples && vals.len() > 0 {
        lemma_evict_contains(vals.skip(1), samples, x);
        let i = choose|i: int| 0 <= i < vals.skip(1).len() && vals.skip(1)[i] == x;
        assert(vals[i + 1] == x);
    }
}

pub(crate) proof fn lemma_evict_len(vals: Seq<NumV>, samples: int)
    ensures
        spec_evict(vals, samples).len() == if samples <= 0 {
            0int
        } else if vals.len() >= samples {
            samples - 1
        } else {
            vals.len() as int
        },
    decreases vals.len(),
{
    if vals.len() >= samples && vals.len() > 0 {
        lemma_evict_len(vals.skip(1), samples);
    }
}

/// Appending keeps the signal well formed and keeps every retained value
/// of an ordered range inside it, whatever value is fed.
proof fn lemma_append_preserves(sig: SignalV, v: NumV, samples: int)
    requires
        wf_signal(sig),
        wf_num(v),
        signal_ranged(sig),
    ensures
        wf_signal(spec_append(sig, v, samples)),
        signal_ranged(spec_append(sig, v, samples)),
        spec_append(sig, v, samples).values.len() <= retained_limit(samples) || spec_append(
            sig,
            v,
            samples,
        ).values.len() <= sig.values.len(),
{
    let clamped = spec_clamp(v, sig.min, sig.max);
    let pushed = sig.values.push(clamped);
    let kept = spec_evict(pushed, samples);
    assert(wf_num(clamped));
    assert forall|i: int| 0 <= i < kept.len() implies wf_num(#[trigger] kept[i]) by {
        assert(kept.contains(kept[i]));
        lemma_evict_contains(pushed, samples, kept[i]);
        let j = choose|j: int| 0 <= j < pushed.len() && pushed[j] == kept[i];
        assert(pushed[j] == if j < sig.values.len() {
            sig.values[j]
        } else {
            clamped
        });
    }
    if !num_lt(sig.max, sig.min) {
        crate::num::lemma_clamp_in_range(v, sig.min, sig.max);
        assert forall|i: int| 0 <= i < kept.len() implies in_range(
            #[trigger] kept[i],
            sig.min,
            sig.max,
        ) by {
            assert(kept.contains(kept[i]));
            lemma_evict_contains(pushed, samples, kept[i]);
            let j = choose|j: int| 0 <= j < pushed.len() && pushed[j] == kept[i];
            assert(pushed[j] == if j < sig.values.len() {
                sig.values[j]
            } else {
                clamped
            });
        }
    }
    lemma_evict_len(pushed, samples);
}

/// Appends one value to one signal, exactly as [`spec_append`] says.
#[verifier::loop_isolation(false)]
fn append_value(sig: &mut ScopeSignal, v: Num, samples: usize)
    requires
        wf_signal(old(sig)@),
        wf_num(v@),
        signal_ranged(old(sig)@),
    ensures
        final(sig)@ == spec_append(old(sig)@, v@, samples as int),
        wf_signal(final(sig)@),
        signal_ranged(final(sig)@),
{
    proof {
        lemma_append_preserves(old(sig)@, v@, samples as int);
    }
    let clamped = clamp(v, &sig.min, &sig.max);
    sig.values.push_back(clamped);
    let ghost pushed = sig.values@.map_values(|n: Num| n@);
    proof {
        assert(pushed =~= old(sig)@.values.push(spec_clamp(v@, old(sig)@.min, old(sig)@.max)));
    }
    while sig.values.len() >= samples && sig.values.len() > 0
        invariant
            sig.name == old(sig).name,
            sig.min == old(sig).min,
            sig.max == old(sig).max,
            sig.y_size == old(sig).y_size,
            sig.y_base == old(sig).y_base,
            sig.legend == old(sig).legend,
            sig.color == old(sig).color,
            spec_evict(sig.values@.map_values(|n: Num| n@), samples as int) == spec_evict(
                pushed,
                samples as int,
            ),
        decreases sig.values@.len(),
    {
        let ghost cur = sig.values@.map_values(|n: Num| n@);
        let _dropped = sig.values.pop_front();
        proof {
            assert(sig.values@.map_values(|n: Num| n@) =~= cur.skip(1));
        }
    }
    proof {
        let cur = sig.values@.map_values(|n: Num| n@);
        assert(spec_evict(cur, samples as int) == cur);
        assert(pushed == old(sig)@.values.push(spec_clamp(v@, old(sig)@.min, old(sig)@.max)));
        assert(cur == spec_evict(pushed, samples as int));
        assert(sig@.values == spec_append(old(sig)@, v@, samples as int).values);
        assert(sig@.name == old(sig)@.name && sig@.min == old(sig)@.min && sig@.max == old(
            sig,
        )@.max && sig@.y_size == old(sig)@.y_size && sig@.y_base == old(sig)@.y_base && sig@.legend
            == old(sig)@.legend && sig@.color == old(sig)@.color);
        assert(sig@ == spec_append(old(sig)@, v@, samples as int));
    }
}

/// The mathematical content of a [`Scope`].
pub struct ScopeV {
    pub name: Seq<char>,
    pub samples: int,
    pub pos: (NumV, NumV),
    pub size: (NumV, NumV),
    pub background: Color,
    pub grid: Color,
    pub signals: Seq<SignalV>,
}

/// A live scope: its identity, its layout hints, its sample capacity,
/// and its signals in declaration order.
pub struct Scope {
    name: String,
    samples: usize,
    pos: (Num, Num),
    size: (Num, Num),
    background: Color,
    grid: Color,
    signals: Vec<ScopeSignal>,
}

impl View for Scope {
    type V = ScopeV;

    closed spec fn view(&self) -> ScopeV {
        ScopeV {
            name: self.name@,
            samples: self.samples as int,
            pos: (self.pos.0@, self.pos.1@),
            size: (self.size.0@, self.size.1@),
            background: self.background,
            grid: self.grid,
            signals: self.signals@.map_values(|s: ScopeSignal| s@),
        }
    }
}

/// A well-formed scope: sane numerics everywhere, and each signal both
/// within the clamping invariant and within the retained-length bound.
pub open spec fn wf_scope(s: ScopeV) -> bool {
    &&& 0 <= s.samples <= usize::MAX as int
    &&& wf_num(s.pos.0) && wf_num(s.pos.1) && wf_num(s.size.0) && wf_num(s.size.1)
    &&& forall|i: int|
        0 <= i < s.signals.len() ==> wf_signal(#[trigger] s.signals[i]) && signal_ranged(
            s.signals[i],
        ) && s.signals[i].values.len() <= retained_limit(s.samples)
}

/// One optional trailing comma is tolerated on each data-row token.
pub open spec fn strip_comma(t: Seq<char>) -> Seq<char> {
    if t.len() > 0 && t.last() == ',' {
        t.drop_last()
    } else {
        t
    }
}

/// A token list is a data row exactly when every token, after the comma
/// strip, is numeric.
pub open spec fn is_row(toks: Seq<Seq<char>>) -> bool {
    forall|i: int| 0 <= i < toks.len() ==> spec_parse_num(strip_comma(#[trigger] toks[i])) is Some
}

pub open spec fn row_values(toks: Seq<Seq<char>>) -> Seq<NumV> {
    Seq::new(toks.len(), |i: int| spec_parse_num(strip_comma(toks[i]))->0)
}

/// The data-row decoder: the values when the list is a row, nothing
/// otherwise.
pub open spec fn spec_parse_row(toks: Seq<Seq<char>>) -> Option<Seq<NumV>> {
    if is_row(toks) {
        Some(row_values(toks))
    } else {
        None
    }
}

/// A freshly declared signal: the configuration with an empty history.
pub open spec fn signal_of_config(c: ScopeSignalConfigV) -> SignalV {
    SignalV {
        name: c.name,
        min: c.min,
        max: c.max,
        y_size: c.y_size,
        y_base: c.y_base,
        legend: c.legend,
        color: c.color,
        values: Seq::empty(),
    }
}

/// What feeding a token list does to a scope: a data row is appended
/// pairwise; otherwise a successful signal declaration attaches a new
/// signal at the back; otherwise the line is dropped and the scope is
/// unchanged.
pub open spec fn spec_scope_feed(s: ScopeV, toks: Seq<Seq<char>>) -> ScopeV {
    match spec_parse_row(toks) {
        Some(vals) => ScopeV { signals: spec_feed_values(s.signals, vals, s.samples), ..s },
        None => match spec_signal_config(toks) {
            Ok(c) => ScopeV { signals: s.signals.push(signal_of_config(c)), ..s },
            Err(_) => s,
        },
    }
}

/// The configuration a scope declaration falls back to when only its
/// name decodes: every other field keeps its default.
pub open spec fn fallback_scope_config(name: Seq<char>) -> ScopeConfigV {
    ScopeConfigV {
        name,
        pos: (zero_num(), zero_num()),
        size: (crate::config::default_w(), crate::config::default_h()),
        samples: crate::config::DEFAULT_SAMPLES as int,
        rate: 1,
        color: black(),
    }
}

pub open spec fn scope_of_config(c: ScopeConfigV) -> ScopeV {
    ScopeV {
        name: c.name,
        samples: c.samples,
        pos: c.pos,
        size: c.size,
        background: black(),
        grid: grey(),
        signals: Seq::empty(),
    }
}

/// How a scope is created from a declaration's tokens: only a wholly
/// missing name fails; any other configuration trouble falls back to the
/// defaults under the declared name.
pub open spec fn spec_scope_new(toks: Seq<Seq<char>>) -> Result<ScopeV, ErrV> {
    match spec_scope_config(toks) {
        Ok(c) => Ok(scope_of_config(c)),
        Err(ErrV::NoNameGiven) => Err(ErrV::NoNameGiven),
        Err(_) => Ok(scope_of_config(fallback_scope_config(crate::strutil::spec_strip_quotes(toks[0])))),
    }
}

impl Scope {
    /// Builds a scope from a declaration's tokens, exactly as
    /// [`spec_scope_new`] says; it fails only when no name was given.
    pub fn new(tokens: &Vec<String>) -> (r: Result<Scope, DebugObjectError>)
        ensures
            ({
                let s = spec_scope_new(tokens@.map_values(|t: String| t@));
                &&& (r is Ok <==> s is Ok)
                &&& (r matches Ok(sc) ==> sc@ == s->Ok_0 && wf_scope(sc@) && sc@.signals.len()
                    == 0)
                &&& (r matches Err(e) ==> e@ == ErrV::NoNameGiven)
            }),
    {
        let ghost tv = tokens@.map_values(|t: String| t@);
        match ScopeConfig::from_tokens(tokens) {
            Ok(config) => {
                let sc = Scope {
                    name: config.name,
                    samples: config.samples,
                    pos: config.pos,
                    size: config.size,
                    background: Color { r: 0, g: 0, b: 0 },
                    grid: Color { r: 0x80, g: 0x80, b: 0x80 },
                    signals: Vec::new(),
                };
                proof {
                    assert(sc@.signals =~= Seq::<SignalV>::empty());
                }
                Ok(sc)
            },
            Err(DebugObjectError::NoNameGiven) => Err(DebugObjectError::NoNameGiven),
            Err(_) => {
                proof {
                    assert(tv.len() > 0);
                    assert(tv[0] == tokens@[0]@);
                }
                let name = strip_single_quotes(tokens[0].as_str());
                let size = crate::config::default_size_exec();
                let pos = (crate::config::zero_num_exec(), crate::config::zero_num_exec());
                let sc = Scope {
                    name,
                    samples: crate::config::DEFAULT_SAMPLES,
                    pos,
                    size,
                    background: Color { r: 0, g: 0, b: 0 },
                    grid: Color { r: 0x80, g: 0x80, b: 0x80 },
                    signals: Vec::new(),
                };
                proof {
                    assert(sc@.signals =~= Seq::<SignalV>::empty());
                }
                Ok(sc)
            },
        }
    }

    /// The scope's declared name, the registry's key for it.
    pub fn name(&self) -> (r: String)
        ensures
            r@ == self@.name,
    {
        self.name.clone()
    }

    /// The configured sample capacity.
    pub fn samples(&self) -> (r: usize)
        ensures
            r as int == self@.samples,
    {
        self.samples
    }

    /// The configured size, as the declaration gave it.
    pub fn size(&self) -> (r: (Num, Num))
        ensures
            r.0@ == self@.size.0,
            r.1@ == self@.size.1,
    {
        (self.size.0.duplicate(), self.size.1.duplicate())
    }

    /// How many signals are attached.
    pub fn signals_len(&self) -> (r: usize)
        ensures
            r as int == self@.signals.len(),
    {
        self.signals.len()
    }

    /// A signal's declared name.
    pub fn signal_name(&self, i: usize) -> (r: String)
        requires
            i < self@.signals.len(),
        ensures
            r@ == self@.signals[i as int].name,
    {
        proof {
            assert(self@.signals[i as int] == self.signals@[i as int]@);
        }
        self.signals[i].name.clone()
    }

    /// A signal's display color.
    pub fn signal_color(&self, i: usize) -> (r: Color)
        requires
            i < self@.signals.len(),
        ensures
            r == self@.signals[i as int].color,
    {
        proof {
            assert(self@.signals[i as int] == self.signals@[i as int]@);
        }
        self.signals[i].color
    }

    /// A signal's clamp range.
    pub fn signal_range(&self, i: usize) -> (r: (Num, Num))
        requires
            i < self@.signals.len(),
        ensures
            r.0@ == self@.signals[i as int].min,
            r.1@ == self@.signals[i as int].max,
    {
        proof {
            assert(self@.signals[i as int] == self.signals@[i as int]@);
        }
        (self.signals[i].min.duplicate(), self.signals[i].max.duplicate())
    }

    /// A snapshot of a signal's retained history, oldest first.
    #[verifier::loop_isolation(false)]
    pub fn signal_history(&self, i: usize) -> (r: Vec<Num>)
        requires
            i < self@.signals.len(),
        ensures
            r@.map_values(|n: Num| n@) == self@.signals[i as int].values,
    {
        proof {
            assert(self@.signals[i as int] == self.signals@[i as int]@);
        }
        let sig = &self.signals[i];
        let n = sig.values.len();
        let mut r: Vec<Num> = Vec::new();
        let mut j: usize = 0;
        proof {
            assert(r@.map_values(|n: Num| n@) =~= sig@.values.take(0));
        }
        while j < n
            invariant
                j <= n,
                n == sig.values@.len(),
                r@.map_values(|x: Num| x@) =~= sig@.values.take(j as int),
            decreases n - j,
        {
            let v = sig.values[j].duplicate();
            let ghost rv = r@.map_values(|x: Num| x@);
            r.push(v);
            proof {
                assert(r@.map_values(|x: Num| x@) =~= rv.push(v@));
                assert(sig@.values.take(j + 1) =~= sig@.values.take(j as int).push(
                    sig@.values[j as int],
                ));
                assert(v@ == sig@.values[j as int]);
            }
            j += 1;
        }
        proof {
            assert(sig@.values.take(n as int) =~= sig@.values);
        }
        r
    }

    /// Applies a data row pairwise by position, as [`spec_feed_values`]
    /// says: each value is clamped into its signal's range and the
    /// history evicted to the retained limit; extra values are ignored.
    #[verifier::loop_isolation(false)]
    pub fn feed_floats(&mut self, values: Vec<Num>)
        requires
            wf_scope(old(self)@),
            values_wf(values@.map_values(|n: Num| n@)),
        ensures
            final(self)@ == (ScopeV {
                signals: spec_feed_values(
                    old(self)@.signals,
                    values@.map_values(|n: Num| n@),
                    old(self)@.samples,
                ),
                ..old(self)@
            }),
            wf_scope(final(self)@),
    {
        let samples = self.samples;
        let ghost origv = self@.signals;
        let ghost valsv = values@.map_values(|n: Num| n@);
        let ghost target = spec_feed_values(origv, valsv, old(self)@.samples);
        let n = self.signals.len();
        let mut result: Vec<ScopeSignal> = Vec::new();
        let mut i: usize = 0;
        while self.signals.len() > 0
            invariant
                self.name == old(self).name,
                self.samples == old(self).samples,
                self.pos == old(self).pos,
                self.size == old(self).size,
                self.background == old(self).background,
                self.grid == old(self).grid,
                i + self.signals@.len() == n,
                n == origv.len(),
                self.signals@.map_values(|s: ScopeSignal| s@) =~= origv.skip(i as int),
                result@.len() == i,
                forall|j: int| 0 <= j < i ==> (#[trigger] result@[j])@ == target[j],
                forall|j: int|
                    0 <= j < i ==> wf_signal((#[trigger] result@[j])@) && signal_ranged(
                        result@[j]@,
                    ) && result@[j]@.values.len() <= retained_limit(old(self)@.samples),
            decreases self.signals@.len(),
        {
            let ghost before = self.signals@.map_values(|s: ScopeSignal| s@);
            let mut sig = self.signals.remove(0);
            proof {
                assert(sig@ == before[0]);
                assert(before[0] == origv[i as int]);
                assert(self.signals@.map_values(|s: ScopeSignal| s@) =~= before.skip(1));
                assert(before.skip(1) =~= origv.skip(i + 1));
                assert(wf_signal(origv[i as int]) && signal_ranged(origv[i as int]) && origv[
                    i as int
                ].values.len() <= retained_limit(old(self)@.samples));
            }
            if i < values.len() {
                let v = values[i].duplicate();
                proof {
                    assert(v@ == valsv[i as int]);
                    assert(wf_num(valsv[i as int]));
                    lemma_append_preserves(sig@, v@, samples as int);
                    lemma_evict_len(
                        sig@.values.push(spec_clamp(v@, sig@.min, sig@.max)),
                        samples as int,
                    );
                }
                append_value(&mut sig, v, samples);
            }
            let ghost rv = result@.map_values(|s: ScopeSignal| s@);
            result.push(sig);
            proof {
                assert(result@.map_values(|s: ScopeSignal| s@) =~= rv.push(sig@));
                assert(target[i as int] == if i < valsv.len() {
                    spec_append(origv[i as int], valsv[i as int], old(self)@.samples)
                } else {
                    origv[i as int]
                });
            }
            i += 1;
        }
        self.signals = result;
        proof {
            assert(final(self)@.signals =~= target);
            assert(final(self)@ == (ScopeV { signals: target, ..old(self)@ }));
        }
    }

    /// Attaches a new signal from a declaration, exactly as
    /// [`spec_signal_config`] decides; a rejected declaration changes
    /// nothing and reports why.
    pub fn setup_signal(&mut self, tokens: &Vec<String>) -> (r: Result<(), DebugObjectError>)
        requires
            wf_scope(old(self)@),
        ensures
            ({
                let s = spec_signal_config(tokens@.map_values(|t: String| t@));
                &&& (r is Ok <==> s is Ok)
                &&& (s matches Ok(c) ==> final(self)@ == (ScopeV {
                    signals: old(self)@.signals.push(signal_of_config(c)),
                    ..old(self)@
                }))
                &&& (r matches Err(e) ==> final(self)@ == old(self)@ && e@ == s->Err_0)
                &&& wf_scope(final(self)@)
            }),
    {
        match ScopeSignalConfig::from_tokens(tokens) {
            Ok(sc) => {
                let sig = ScopeSignal {
                    name: sc.name,
                    min: sc.min,
                    max: sc.max,
                    y_size: sc.y_size,
                    y_base: sc.y_base,
                    legend: sc.legend,
                    color: sc.color,
                    values: VecDeque::new(),
                };
                proof {
                    assert(sig@.values =~= Seq::<NumV>::empty());
                }
                let ghost before = self.signals@.map_values(|s: ScopeSignal| s@);
                self.signals.push(sig);
                proof {
                    assert(final(self)@.signals =~= before.push(sig@));
                }
                Ok(())
            },
            Err(e) => Err(e),
        }
    }

    /// Feeds one token list: the data-row decoder first, the signal
    /// declaration as the fallback, and a drop when both fail — exactly
    /// [`spec_scope_feed`].
    #[verifier::loop_isolation(false)]
    pub fn feed(&mut self, tokens: Vec<String>)
        requires
            wf_scope(old(self)@),
        ensures
            final(self)@ == spec_scope_feed(old(self)@, tokens@.map_values(|t: String| t@)),
            wf_scope(final(self)@),
    {
        let ghost tv = tokens@.map_values(|t: String| t@);
        let mut floats: Vec<Num> = Vec::new();
        let n = tokens.len();
        let mut i: usize = 0;
        while i < n
            invariant
                i <= n,
                self@ == old(self)@,
                floats@.map_values(|x: Num| x@) =~= row_values(tv.take(i as int)),
                values_wf(floats@.map_values(|x: Num| x@)),
                forall|j: int|
                    0 <= j < i ==> spec_parse_num(strip_comma(#[trigger] tv[j])) is Some,
            decreases n - i,
        {
            proof {
                assert(tv[i as int] == tokens@[i as int]@);
            }
            let tl = tokens[i].as_str().unicode_len();
            let stripped: String = if tl > 0 && tokens[i].as_str().get_char(tl - 1) == ',' {
                let cut = tokens[i].as_str().substring_char(0, tl - 1).to_owned();
                proof {
                    assert(cut@ =~= strip_comma(tv[i as int]));
                }
                cut
            } else {
                let whole = tokens[i].clone();
                proof {
                    assert(whole@ =~= strip_comma(tv[i as int]));
                }
                whole
            };
            match parse_num(stripped.as_str()) {
                Some(v) => {
                    let ghost fv = floats@.map_values(|x: Num| x@);
                    floats.push(v);
                    proof {
                        assert(floats@.map_values(|x: Num| x@) =~= fv.push(v@));
                        assert(row_values(tv.take(i + 1)) =~= row_values(tv.take(i as int)).push(
                            spec_parse_num(strip_comma(tv[i as int]))->0,
                        ));
                    }
                    i += 1;
                },
                None => {
                    proof {
                        assert(!is_row(tv));
                    }
                    let _ignored = self.setup_signal(&tokens);
                    return ;
                },
            }
        }
        proof {
            assert(tv.take(n as int) =~= tv);
            assert(is_row(tv));
            assert(spec_parse_row(tv) == Some(row_values(tv)));
        }
        self.feed_floats(floats);
    }
}

} // verus!
