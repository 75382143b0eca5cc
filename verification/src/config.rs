//! The declaration mini-language: decoding token lists into a scope
//! configuration or a signal configuration.
//!
//! Both grammars are forgiving: a scope declaration scans a flat
//! keyword/argument stream and stops without error at the first
//! unrecognized keyword; a signal declaration demands its name and four
//! numerics and otherwise rejects as a whole.
use crate::color::{
    black, gray_color, legend_of_token, named_color, spec_gray_color, spec_legend,
    spec_named_color, yellow, Color, Legend,
};
use crate::line::{DebugObjectError, ErrV};
use crate::num::{wf_num, Num, NumV};
use crate::numparse::{parse_num, spec_parse_num};
use crate::strutil::{
    parse_usize, spec_parse_usize, spec_strip_quotes, str_eq, strip_single_quotes,
};
use vstd::prelude::*;

verus! {

/// The canonical zero sample value.
pub open spec fn zero_num() -> NumV {
    NumV::Dec { neg: false, digits: Seq::empty(), exp: 0 }
}

/// The default scope width, 255.
pub open spec fn default_w() -> NumV {
    NumV::Dec { neg: false, digits: seq![2u8, 5u8, 5u8], exp: 0 }
}

/// The default scope height, 256.
pub open spec fn default_h() -> NumV {
    NumV::Dec { neg: false, digits: seq![2u8, 5u8, 6u8], exp: 0 }
}

/// The default sample capacity.
pub const DEFAULT_SAMPLES: usize = 256;

pub(crate) fn zero_num_exec() -> (r: Num)
    ensures
        r@ == zero_num(),
        wf_num(r@),
{
    Num::Dec { neg: false, digits: Vec::new(), exp: 0 }
}

pub(crate) fn default_size_exec() -> (r: (Num, Num))
    ensures
        r.0@ == default_w(),
        r.1@ == default_h(),
        wf_num(r.0@) && wf_num(r.1@),
{
    let mut w: Vec<u8> = Vec::new();
    w.push(2);
    w.push(5);
    w.push(5);
    let mut h: Vec<u8> = Vec::new();
    h.push(2);
    h.push(5);
    h.push(6);
    proof {
        assert(w@ =~= seq![2u8, 5u8, 5u8]);
        assert(h@ =~= seq![2u8, 5u8, 6u8]);
    }
    (Num::Dec { neg: false, digits: w, exp: 0 }, Num::Dec { neg: false, digits: h, exp: 0 })
}

/// The mathematical content of a [`ScopeConfig`].
pub struct ScopeConfigV {
    pub name: Seq<char>,
    pub pos: (NumV, NumV),
    pub size: (NumV, NumV),
    pub samples: int,
    pub rate: int,
    pub color: Color,
}

/// A decoded scope declaration: name, layout hints, sample capacity.
#[derive(Debug)]
pub struct ScopeConfig {
    pub name: String,
    pub pos: (Num, Num),
    pub size: (Num, Num),
    pub samples: usize,
    pub rate: usize,
    pub color: Color,
}

impl View for ScopeConfig {
    type V = ScopeConfigV;

    open spec fn view(&self) -> ScopeConfigV {
        ScopeConfigV {
            name: self.name@,
            pos: (self.pos.0@, self.pos.1@),
            size: (self.size.0@, self.size.1@),
            samples: self.samples as int,
            rate: self.rate as int,
            color: self.color,
        }
    }
}

/// The flat keyword/argument scan of a scope declaration: `SIZE` takes
/// two numerics, `SAMPLES` one; an unrecognized keyword stops the scan
/// without error; a missing argument is [`ErrV::IndexError`], an
/// unparsable one [`ErrV::ParseNumberError`].
pub open spec fn spec_scope_scan(
    toks: Seq<Seq<char>>,
    i: int,
    size: (NumV, NumV),
    samples: int,
) -> Result<((NumV, NumV), int), ErrV>
    decreases toks.len() - i,
{
    if i >= toks.len() || !(toks[i] == "SIZE"@ || toks[i] == "SAMPLES"@) {
        Ok((size, samples))
    } else if toks[i] == "SIZE"@ {
        if i + 1 >= toks.len() {
            Err(ErrV::IndexError)
        } else {
            match spec_parse_num(toks[i + 1]) {
                None => Err(ErrV::ParseNumberError),
                Some(w) => {
                    if i + 2 >= toks.len() {
                        Err(ErrV::IndexError)
                    } else {
                        match spec_parse_num(toks[i + 2]) {
                            None => Err(ErrV::ParseNumberError),
                            Some(h) => spec_scope_scan(toks, i + 3, (w, h), samples),
                        }
                    }
                },
            }
        }
    } else {
        if i + 1 >= toks.len() {
            Err(ErrV::IndexError)
        } else {
            match spec_parse_usize(toks[i + 1]) {
                None => Err(ErrV::ParseNumberError),
                Some(v) => spec_scope_scan(toks, i + 2, size, v),
            }
        }
    }
}

/// The keyword scan only ever reports a missing or an unparsable
/// argument.
pub proof fn lemma_scan_err_kind(toks: Seq<Seq<char>>, i: int, size: (NumV, NumV), samples: int)
    ensures
        spec_scope_scan(toks, i, size, samples) matches Err(e) ==> (e is IndexError
            || e is ParseNumberError),
    decreases toks.len() - i,
{
    if i >= toks.len() || !(toks[i] == "SIZE"@ || toks[i] == "SAMPLES"@) {
    } else if toks[i] == "SIZE"@ {
        if i + 1 < toks.len() && spec_parse_num(toks[i + 1]) is Some && i + 2 < toks.len()
            && spec_parse_num(toks[i + 2]) is Some {
            lemma_scan_err_kind(
                toks,
                i + 3,
                (spec_parse_num(toks[i + 1])->0, spec_parse_num(toks[i + 2])->0),
                samples,
            );
        }
    } else {
        if i + 1 < toks.len() && spec_parse_usize(toks[i + 1]) is Some {
            lemma_scan_err_kind(toks, i + 2, size, spec_parse_usize(toks[i + 1])->0);
        }
    }
}

/// How a scope declaration decodes: the first token is the (optionally
/// quoted) name — its absence is [`ErrV::NoNameGiven`] — and the rest is
/// the keyword scan; everything not given keeps its default.
pub open spec fn spec_scope_config(toks: Seq<Seq<char>>) -> Result<ScopeConfigV, ErrV> {
    if toks.len() == 0 {
        Err(ErrV::NoNameGiven)
    } else {
        match spec_scope_scan(toks, 1, (default_w(), default_h()), DEFAULT_SAMPLES as int) {
            Ok((size, samples)) => Ok(
                ScopeConfigV {
                    name: spec_strip_quotes(toks[0]),
                    pos: (zero_num(), zero_num()),
                    size,
                    samples,
                    rate: 1,
                    color: black(),
                },
            ),
            Err(e) => Err(e),
        }
    }
}

pub open spec fn wf_scope_config(c: ScopeConfigV) -> bool {
    wf_num(c.pos.0) && wf_num(c.pos.1) && wf_num(c.size.0) && wf_num(c.size.1) && 0 <= c.samples
        <= usize::MAX as int
}

impl ScopeConfig {
    /// Decodes a scope declaration, exactly as [`spec_scope_config`]
    /// says.
    #[verifier::loop_isolation(false)]
    pub fn from_tokens(tokens: &Vec<String>) -> (r: Result<ScopeConfig, DebugObjectError>)
        ensures
            ({
                let s = spec_scope_config(tokens@.map_values(|t: String| t@));
                &&& (r is Ok <==> s is Ok)
                &&& (r matches Ok(c) ==> c@ == s->Ok_0 && wf_scope_config(c@))
                &&& (r matches Err(e) ==> e@ == s->Err_0)
            }),
    {
        let ghost tv = tokens@.map_values(|t: String| t@);
        if tokens.len() == 0 {
            return Err(DebugObjectError::NoNameGiven);
        }
        let name = strip_single_quotes(tokens[0].as_str());
        proof {
            assert(tv[0] == tokens@[0]@);
        }
        let mut size = default_size_exec();
        let mut samples: usize = DEFAULT_SAMPLES;
        let mut index: usize = 1;
        while index < tokens.len()
            invariant
                1 <= index,
                wf_num(size.0@) && wf_num(size.1@),
                spec_scope_scan(tv, 1, (default_w(), default_h()), DEFAULT_SAMPLES as int)
                    == spec_scope_scan(tv, index as int, (size.0@, size.1@), samples as int),
            decreases tokens@.len() - index,
        {
            proof {
                assert(tv[index as int] == tokens@[index as int]@);
            }
            if str_eq(tokens[index].as_str(), "SIZE") {
                if index + 1 >= tokens.len() {
                    return Err(DebugObjectError::IndexError);
                }
                proof {
                    assert(tv[index + 1] == tokens@[index + 1]@);
                }
                let w = match parse_num(tokens[index + 1].as_str()) {
                    Some(w) => w,
                    None => {
                        return Err(DebugObjectError::ParseNumberError);
                    },
                };
                if index + 2 >= tokens.len() {
                    return Err(DebugObjectError::IndexError);
                }
                proof {
                    assert(tv[index + 2] == tokens@[index + 2]@);
                }
                let h = match parse_num(tokens[index + 2].as_str()) {
                    Some(h) => h,
                    None => {
                        return Err(DebugObjectError::ParseNumberError);
                    },
                };
                size = (w, h);
                index += 3;
            } else if str_eq(tokens[index].as_str(), "SAMPLES") {
                if index + 1 >= tokens.len() {
                    return Err(DebugObjectError::IndexError);
                }
                proof {
                    assert(tv[index + 1] == tokens@[index + 1]@);
                }
                match parse_usize(tokens[index + 1].as_str()) {
                    Some(v) => {
                        samples = v;
                    },
                    None => {
                        return Err(DebugObjectError::ParseNumberError);
                    },
                }
                index += 2;
            } else {
                break ;
            }
        }
        Ok(
            ScopeConfig {
                name,
                pos: (zero_num_exec(), zero_num_exec()),
                size,
                samples,
                rate: 1,
                color: Color { r: 0, g: 0, b: 0 },
            },
        )
    }
}

/// The mathematical content of a [`ScopeSignalConfig`].
pub struct ScopeSignalConfigV {
    pub name: Seq<char>,
    pub min: NumV,
    pub max: NumV,
    pub y_size: NumV,
    pub y_base: NumV,
    pub legend: Option<Legend>,
    pub color: Color,
}

/// A decoded signal declaration: name, clamp range, layout hints, an
/// optional legend mask, and a display color.
#[derive(Debug)]
pub struct ScopeSignalConfig {
    pub name: String,
    pub min: Num,
    pub max: Num,
    pub y_size: Num,
    pub y_base: Num,
    pub legend: Option<Legend>,
    pub color: Color,
}

impl View for ScopeSignalConfig {
    type V = ScopeSignalConfigV;

    open spec fn view(&self) -> ScopeSignalConfigV {
        ScopeSignalConfigV {
            name: self.name@,
            min: self.min@,
            max: self.max@,
            y_size: self.y_size@,
            y_base: self.y_base@,
            legend: self.legend,
            color: self.color,
        }
    }
}

/// A color read at token `i`: a named color; or `GRAY`/`GREY` whose
/// following token is a level from 0 to 10; anything else (or an absent
/// or out-of-range level) is the default yellow.
pub open spec fn spec_color_at(toks: Seq<Seq<char>>, i: int) -> Color {
    match spec_named_color(toks[i]) {
        Some(c) => c,
        None => {
            if (toks[i] == "GRAY"@ || toks[i] == "GREY"@) && i + 1 < toks.len() {
                match spec_parse_usize(toks[i + 1]) {
                    Some(l) => if l <= 10 {
                        spec_gray_color(l)
                    } else {
                        yellow()
                    },
                    None => yellow(),
                }
            } else {
                yellow()
            }
        },
    }
}

/// The optional trailing tokens of a signal declaration: a mask-shaped
/// token carries the legend and the color follows it; otherwise the next
/// token, if any, is read directly as the color.
pub open spec fn spec_legend_color(toks: Seq<Seq<char>>, i: int) -> (Option<Legend>, Color) {
    if i >= toks.len() {
        (None, yellow())
    } else {
        match spec_legend(toks[i]) {
            Some(lg) => (
                Some(lg),
                if i + 1 < toks.len() {
                    spec_color_at(toks, i + 1)
                } else {
                    yellow()
                },
            ),
            None => (None, spec_color_at(toks, i)),
        }
    }
}

/// How a signal declaration decodes: the quoted name then four mandatory
/// numerics (`min`, `max`, `ySize`, `yBase`), in order; a missing token
/// is [`ErrV::IndexError`], an unparsable one [`ErrV::ParseNumberError`],
/// and either rejects the whole declaration.
pub open spec fn spec_signal_config(toks: Seq<Seq<char>>) -> Result<ScopeSignalConfigV, ErrV> {
    if toks.len() == 0 {
        Err(ErrV::NoNameGiven)
    } else if toks.len() < 2 {
        Err(ErrV::IndexError)
    } else {
        match spec_parse_num(toks[1]) {
            None => Err(ErrV::ParseNumberError),
            Some(min) => {
                if toks.len() < 3 {
                    Err(ErrV::IndexError)
                } else {
                    match spec_parse_num(toks[2]) {
                        None => Err(ErrV::ParseNumberError),
                        Some(max) => {
                            if toks.len() < 4 {
                                Err(ErrV::IndexError)
                            } else {
                                match spec_parse_num(toks[3]) {
                                    None => Err(ErrV::ParseNumberError),
                                    Some(y_size) => {
                                        if toks.len() < 5 {
                                            Err(ErrV::IndexError)
                                        } else {
                                            match spec_parse_num(toks[4]) {
                                                None => Err(ErrV::ParseNumberError),
                                                Some(y_base) => {
                                                    let (legend, color) = spec_legend_color(
                                                        toks,
                                                        5,
                                                    );
                                                    Ok(
                                                        ScopeSignalConfigV {
                                                            name: spec_strip_quotes(toks[0]),
                                                            min,
                                                            max,
                                                            y_size,
                                                            y_base,
                                                            legend,
                                                            color,
                                                        },
                                                    )
                                                },
                                            }
                                        }
                                    },
                                }
                            }
                        },
                    }
                }
            },
        }
    }
}

pub open spec fn wf_signal_config(c: ScopeSignalConfigV) -> bool {
    wf_num(c.min) && wf_num(c.max) && wf_num(c.y_size) && wf_num(c.y_base)
}

/// Reads the color at token `i`, exactly as [`spec_color_at`] says.
fn color_at(tokens: &Vec<String>, i: usize) -> (r: Color)
    requires
        i < tokens@.len(),
    ensures
        r == spec_color_at(tokens@.map_values(|t: String| t@), i as int),
{
    let ghost tv = tokens@.map_values(|t: String| t@);
    let n = tokens.len();
    proof {
        assert(tv[i as int] == tokens@[i as int]@);
    }
    match named_color(tokens[i].as_str()) {
        Some(c) => c,
        None => {
            if (str_eq(tokens[i].as_str(), "GRAY") || str_eq(tokens[i].as_str(), "GREY")) && i + 1
                < n {
                proof {
                    assert(tv[i + 1] == tokens@[i + 1]@);
                }
                match parse_usize(tokens[i + 1].as_str()) {
                    Some(l) => {
                        if l <= 10 {
                            gray_color(l)
                        } else {
                            Color { r: 0xFF, g: 0xFF, b: 0 }
                        }
                    },
                    None => Color { r: 0xFF, g: 0xFF, b: 0 },
                }
            } else {
                Color { r: 0xFF, g: 0xFF, b: 0 }
            }
        },
    }
}

impl ScopeSignalConfig {
    /// Decodes a signal declaration, exactly as [`spec_signal_config`]
    /// says.
    pub fn from_tokens(tokens: &Vec<String>) -> (r: Result<ScopeSignalConfig, DebugObjectError>)
        ensures
            ({
                let s = spec_signal_config(tokens@.map_values(|t: String| t@));
                &&& (r is Ok <==> s is Ok)
                &&& (r matches Ok(c) ==> c@ == s->Ok_0 && wf_signal_config(c@))
                &&& (r matches Err(e) ==> e@ == s->Err_0)
            }),
    {
        let ghost tv = tokens@.map_values(|t: String| t@);
        if tokens.len() == 0 {
            return Err(DebugObjectError::NoNameGiven);
        }
        proof {
            assert(tv[0] == tokens@[0]@);
            assert(tv[1] == tokens@[1]@ || tokens@.len() < 2);
            assert(tv[2] == tokens@[2]@ || tokens@.len() < 3);
            assert(tv[3] == tokens@[3]@ || tokens@.len() < 4);
            assert(tv[4] == tokens@[4]@ || tokens@.len() < 5);
            assert(tv[5] == tokens@[5]@ || tokens@.len() < 6);
        }
        if tokens.len() < 2 {
            return Err(DebugObjectError::IndexError);
        }
        let min = match parse_num(tokens[1].as_str()) {
            Some(v) => v,
            None => {
                return Err(DebugObjectError::ParseNumberError);
            },
        };
        if tokens.len() < 3 {
            return Err(DebugObjectError::IndexError);
        }
        let max = match parse_num(tokens[2].as_str()) {
            Some(v) => v,
            None => {
                return Err(DebugObjectError::ParseNumberError);
            },
        };
        if tokens.len() < 4 {
            return Err(DebugObjectError::IndexError);
        }
        let y_size = match parse_num(tokens[3].as_str()) {
            Some(v) => v,
            None => {
                return Err(DebugObjectError::ParseNumberError);
            },
        };
        if tokens.len() < 5 {
            return Err(DebugObjectError::IndexError);
        }
        let y_base = match parse_num(tokens[4].as_str()) {
            Some(v) => v,
            None => {
                return Err(DebugObjectError::ParseNumberError);
            },
        };
        let name = strip_single_quotes(tokens[0].as_str());
        let (legend, color): (Option<Legend>, Color) = if tokens.len() <= 5 {
            (None, Color { r: 0xFF, g: 0xFF, b: 0 })
        } else {
            match legend_of_token(tokens[5].as_str()) {
                Some(lg) => (
                    Some(lg),
                    if 6 < tokens.len() {
                        color_at(tokens, 6)
                    } else {
                        Color { r: 0xFF, g: 0xFF, b: 0 }
                    },
                ),
                None => (None, color_at(tokens, 5)),
            }
        };
        Ok(ScopeSignalConfig { name, min, max, y_size, y_base, legend, color })
    }
}

} // verus!
