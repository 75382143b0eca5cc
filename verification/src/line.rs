//! Protocol lines: the error taxonomy and the sigil-prefixed line shape.
use crate::strutil::{tokenize, tokenize_exec};
use vstd::prelude::*;

verus! {

/// The mathematical content of a [`DebugObjectError`].
pub enum ErrV {
    NoNameGiven,
    InvalidFormat(Seq<char>),
    IndexError,
    ParseNumberError,
}

/// What can go wrong while decoding one line.  Every such error is local
/// to its line; the decoder never aborts on one.
#[derive(Debug, Clone, PartialEq, Eq)]
pub enum DebugObjectError {
    /// A declaration carried no name token at all.
    NoNameGiven,
    /// The line as a whole has no decodable shape; carries the line.
    InvalidFormat(String),
    /// An expected token was absent.
    IndexError,
    /// A token was present but not a number.
    ParseNumberError,
}

impl View for DebugObjectError {
    type V = ErrV;

    open spec fn view(&self) -> ErrV {
        match self {
            DebugObjectError::NoNameGiven => ErrV::NoNameGiven,
            DebugObjectError::InvalidFormat(s) => ErrV::InvalidFormat(s@),
            DebugObjectError::IndexError => ErrV::IndexError,
            DebugObjectError::ParseNumberError => ErrV::ParseNumberError,
        }
    }
}

/// The mathematical content of a [`DebugLine`].
pub struct DebugLineV {
    pub keyword: Seq<char>,
    pub tokens: Seq<Seq<char>>,
}

/// A framed line split into its keyword (the first token, with the
/// backtick sigil stripped; never empty) and the remaining tokens.
#[derive(Debug)]
pub struct DebugLine {
    pub keyword: String,
    pub tokens: Vec<String>,
}

impl View for DebugLine {
    type V = DebugLineV;

    open spec fn view(&self) -> DebugLineV {
        DebugLineV { keyword: self.keyword@, tokens: self.tokens@.map_values(|t: String| t@) }
    }
}

/// How a raw line decodes: its whitespace tokens, accepted when the first
/// token is the sigil followed by a non-empty keyword.
pub open spec fn spec_debug_line(s: Seq<char>) -> Option<DebugLineV> {
    let ts = tokenize(s);
    if ts.len() > 0 && ts[0].len() >= 2 && ts[0][0] == '`' {
        Some(DebugLineV { keyword: ts[0].skip(1), tokens: ts.skip(1) })
    } else {
        None
    }
}

impl DebugLine {
    /// Tokenizes a line; accepts it exactly when [`spec_debug_line`]
    /// does, and otherwise reports the whole line as unformatted.
    #[verifier::loop_isolation(false)]
    pub fn from_str(line: &str) -> (r: Result<DebugLine, DebugObjectError>)
        ensures
            r is Ok <==> spec_debug_line(line@) is Some,
            r matches Ok(dl) ==> dl@.keyword == spec_debug_line(line@)->0.keyword && dl@.tokens
                == spec_debug_line(line@)->0.tokens && dl@.keyword.len() > 0,
            r matches Err(e) ==> e@ == ErrV::InvalidFormat(line@),
    {
        let tokens = tokenize_exec(line);
        let ghost ts = tokenize(line@);
        if tokens.len() > 0 {
            let fl = tokens[0].as_str().unicode_len();
            proof {
                assert(tokens@.map_values(|t: String| t@)[0] == tokens@[0]@);
            }
            if fl >= 2 && tokens[0].as_str().get_char(0) == '`' {
                let keyword = tokens[0].as_str().substring_char(1, fl).to_owned();
                let mut rest: Vec<String> = Vec::new();
                let mut i: usize = 1;
                proof {
                    assert(rest@.map_values(|t: String| t@) =~= ts.skip(1).take(0));
                }
                while i < tokens.len()
                    invariant
                        1 <= i <= tokens@.len(),
                        tokens@.map_values(|t: String| t@) == ts,
                        rest@.map_values(|t: String| t@) =~= ts.skip(1).take(i - 1),
                    decreases tokens@.len() - i,
                {
                    let t = tokens[i].clone();
                    proof {
                        assert((rest@.push(t)).map_values(|x: String| x@) =~= rest@.map_values(
                            |x: String| x@,
                        ).push(t@));
                        assert(ts.skip(1).take(i as int) =~= ts.skip(1).take(i - 1).push(
                            ts[i as int],
                        ));
                        assert(t@ == tokens@.map_values(|x: String| x@)[i as int]);
                    }
                    rest.push(t);
                    i += 1;
                }
                proof {
                    assert(rest@.map_values(|t: String| t@) =~= ts.skip(1));
                    assert(keyword@ =~= ts[0].skip(1));
                }
                return Ok(DebugLine { keyword, tokens: rest });
            }
        }
        Err(DebugObjectError::InvalidFormat(line.to_owned()))
    }
}

} // verus!
