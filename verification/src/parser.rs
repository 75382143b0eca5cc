//! The byte-level declaration grammar.
//!
//! The same mini-language as the token decoders, read directly off raw
//! bytes into a little instruction syntax tree: sigil-prefixed symbols,
//! quoted strings, decimal numerals, the scope configuration keywords,
//! the legend mask, and named or grayscale colors.  Every parser takes
//! the input and a position and yields the position after what it
//! consumed together with the decoded value, or nothing where the
//! grammar rejects.
use crate::color::{Color, Legend};
use crate::strutil::utf8_to_string;
use vstd::prelude::*;
use vstd::utf8::{decode_utf8, valid_utf8};

verus! {

/// The mathematical content of a [`DebugInstructionAtom`].
pub enum DebugInstructionAtomV {
    SCOPE,
    Identifier { value: Seq<char> },
    Symbol { value: Seq<char> },
    String { value: Seq<char> },
    Title(Seq<char>),
    Pos(int, int),
    Size(int, int),
    Samples(int),
    Rate(int),
    DotSize(int),
    LineSize(int),
    TextSize(int),
    Color { background: Color, grid: Option<Color> },
}

/// One decoded piece of a declaration: a name, a string, a keyword with
/// its arguments, or a color setting.
#[derive(Debug, PartialEq)]
pub enum DebugInstructionAtom {
    SCOPE,
    Identifier { value: String },
    Symbol { value: String },
    String { value: String },
    Title(String),
    Pos(i64, i64),
    Size(i64, i64),
    Samples(i64),
    Rate(i64),
    DotSize(i64),
    LineSize(i64),
    TextSize(i64),
    Color { background: Color, grid: Option<Color> },
}

impl View for DebugInstructionAtom {
    type V = DebugInstructionAtomV;

    open spec fn view(&self) -> DebugInstructionAtomV {
        match self {
            DebugInstructionAtom::SCOPE => DebugInstructionAtomV::SCOPE,
            DebugInstructionAtom::Identifier { value } => DebugInstructionAtomV::Identifier {
                value: value@,
            },
            DebugInstructionAtom::Symbol { value } => DebugInstructionAtomV::Symbol {
                value: value@,
            },
            DebugInstructionAtom::String { value } => DebugInstructionAtomV::String {
                value: value@,
            },
            DebugInstructionAtom::Title(t) => DebugInstructionAtomV::Title(t@),
            DebugInstructionAtom::Pos(x, y) => DebugInstructionAtomV::Pos(*x as int, *y as int),
            DebugInstructionAtom::Size(x, y) => DebugInstructionAtomV::Size(*x as int, *y as int),
            DebugInstructionAtom::Samples(n) => DebugInstructionAtomV::Samples(*n as int),
            DebugInstructionAtom::Rate(n) => DebugInstructionAtomV::Rate(*n as int),
            DebugInstructionAtom::DotSize(n) => DebugInstructionAtomV::DotSize(*n as int),
            DebugInstructionAtom::LineSize(n) => DebugInstructionAtomV::LineSize(*n as int),
            DebugInstructionAtom::TextSize(n) => DebugInstructionAtomV::TextSize(*n as int),
            DebugInstructionAtom::Color { background, grid } => DebugInstructionAtomV::Color {
                background: *background,
                grid: *grid,
            },
        }
    }
}

/// The mathematical content of a [`DebugInstruction`].
pub enum DebugInstructionV {
    SCOPE { name: Seq<char>, configurations: Seq<DebugInstructionAtomV> },
    SignalDefinition {
        name: Seq<char>,
        min: Option<int>,
        max: Option<int>,
        y_size: Option<int>,
        y_base: Option<int>,
        legend: Option<Legend>,
        color: Option<Color>,
    },
}

/// A whole decoded declaration: a scope with its configuration atoms, or
/// a signal definition with its optional chain of fields.
#[derive(Debug, PartialEq)]
pub enum DebugInstruction {
    SCOPE { name: String, configurations: Vec<DebugInstructionAtom> },
    SignalDefinition {
        name: String,
        min: Option<i64>,
        max: Option<i64>,
        y_size: Option<i64>,
        y_base: Option<i64>,
        legend: Option<Legend>,
        color: Option<Color>,
    },
}

impl View for DebugInstruction {
    type V = DebugInstructionV;

    open spec fn view(&self) -> DebugInstructionV {
        match self {
            DebugInstruction::SCOPE { name, configurations } => DebugInstructionV::SCOPE {
                name: name@,
                configurations: configurations@.map_values(|a: DebugInstructionAtom| a@),
            },
            DebugInstruction::SignalDefinition {
                name,
                min,
                max,
                y_size,
                y_base,
                legend,
                color,
            } => DebugInstructionV::SignalDefinition {
                name: name@,
                min: match min {
                    Some(v) => Some(*v as int),
                    None => None,
                },
                max: match max {
                    Some(v) => Some(*v as int),
                    None => None,
                },
                y_size: match y_size {
                    Some(v) => Some(*v as int),
                    None => None,
                },
                y_base: match y_base {
                    Some(v) => Some(*v as int),
                    None => None,
                },
                legend: *legend,
                color: *color,
            },
        }
    }
}

/// A literal keyword at `pos`: the position after it, or nothing.
pub open spec fn spec_tag(input: Seq<u8>, pos: int, w: Seq<u8>) -> Option<int> {
    if 0 <= pos && pos + w.len() <= input.len() && input.subrange(pos, pos + w.len()) == w {
        Some(pos + w.len())
    } else {
        None
    }
}

pub open spec fn is_ws_byte(b: u8) -> bool {
    b == 0x20 || b == 0x09 || b == 0x0D || b == 0x0A
}

pub open spec fn is_digit_byte(b: u8) -> bool {
    0x30 <= b && b <= 0x39
}

pub open spec fn is_word_byte(b: u8) -> bool {
    (0x30 <= b && b <= 0x39) || (0x41 <= b && b <= 0x5A) || (0x61 <= b && b <= 0x7A) || b == 0x5F
}

pub open spec fn is_text_byte(b: u8) -> bool {
    is_word_byte(b) || b == 0x20
}

pub open spec fn is_numeral_byte(b: u8) -> bool {
    is_digit_byte(b) || b == 0x5F
}

/// The end of the run of bytes of the given class starting at `pos`.
pub open spec fn run_end(input: Seq<u8>, pos: int, class: spec_fn(u8) -> bool) -> int
    decreases input.len() - pos,
{
    if 0 <= pos < input.len() && class(input[pos]) {
        run_end(input, pos + 1, class)
    } else {
        pos
    }
}

proof fn lemma_run_end_at(input: Seq<u8>, pos: int, class: spec_fn(u8) -> bool, k: int)
    requires
        0 <= pos <= k <= input.len(),
        forall|j: int| pos <= j < k ==> class(#[trigger] input[j]),
        k < input.len() ==> !class(input[k as int]),
    ensures
        run_end(input, pos, class) == k,
    decreases k - pos,
{
    if pos < k {
        lemma_run_end_at(input, pos + 1, class, k);
    }
}

/// One or more whitespace bytes, greedily.
pub open spec fn spec_ws1(input: Seq<u8>, pos: int) -> Option<int> {
    if 0 <= pos < input.len() && is_ws_byte(input[pos]) {
        Some(run_end(input, pos, |b: u8| is_ws_byte(b)))
    } else {
        None
    }
}

fn byte_at(input: &[u8], i: usize) -> (b: u8)
    requires
        i < input@.len(),
    ensures
        b == input@[i as int],
{
    *vstd::slice::slice_index_get(input, i)
}

/// Scans the run of one byte class; `which` selects it so the scan and
/// its contract share one body.
#[verifier::loop_isolation(false)]
fn scan_run(input: &[u8], pos: usize, which: u8) -> (end: usize)
    requires
        pos <= input@.len(),
        which <= 3,
    ensures
        pos <= end <= input@.len(),
        which == 0 ==> end == run_end(input@, pos as int, |b: u8| is_ws_byte(b)),
        which == 1 ==> end == run_end(input@, pos as int, |b: u8| is_word_byte(b)),
        which == 2 ==> end == run_end(input@, pos as int, |b: u8| is_text_byte(b)),
        which == 3 ==> end == run_end(input@, pos as int, |b: u8| is_numeral_byte(b)),
{
    let n = input.len();
    let mut i = pos;
    while i < n
        invariant
            pos <= i <= n,
            forall|j: int|
                pos <= j < i ==> (which == 0 ==> is_ws_byte(#[trigger] input@[j])) && (which == 1
                    ==> is_word_byte(input@[j])) && (which == 2 ==> is_text_byte(input@[j])) && (
                which == 3 ==> is_numeral_byte(input@[j])),
        decreases n - i,
    {
        let b = byte_at(input, i);
        let hit = if which == 0 {
            b == 0x20 || b == 0x09 || b == 0x0D || b == 0x0A
        } else if which == 1 {
            (0x30 <= b && b <= 0x39) || (0x41 <= b && b <= 0x5A) || (0x61 <= b && b <= 0x7A) || b
                == 0x5F
        } else if which == 2 {
            (0x30 <= b && b <= 0x39) || (0x41 <= b && b <= 0x5A) || (0x61 <= b && b <= 0x7A) || b
                == 0x5F || b == 0x20
        } else {
            (0x30 <= b && b <= 0x39) || b == 0x5F
        };
        if !hit {
            proof {
                if which == 0 {
                    lemma_run_end_at(input@, pos as int, |x: u8| is_ws_byte(x), i as int);
                } else if which == 1 {
                    lemma_run_end_at(input@, pos as int, |x: u8| is_word_byte(x), i as int);
                } else if which == 2 {
                    lemma_run_end_at(input@, pos as int, |x: u8| is_text_byte(x), i as int);
                } else {
                    lemma_run_end_at(input@, pos as int, |x: u8| is_numeral_byte(x), i as int);
                }
            }
            return i;
        }
        i += 1;
    }
    proof {
        if which == 0 {
            lemma_run_end_at(input@, pos as int, |x: u8| is_ws_byte(x), n as int);
        } else if which == 1 {
            lemma_run_end_at(input@, pos as int, |x: u8| is_word_byte(x), n as int);
        } else if which == 2 {
            lemma_run_end_at(input@, pos as int, |x: u8| is_text_byte(x), n as int);
        } else {
            lemma_run_end_at(input@, pos as int, |x: u8| is_numeral_byte(x), n as int);
        }
    }
    n
}

/// Matches a literal keyword, exactly as [`spec_tag`] says.
#[verifier::loop_isolation(false)]
fn tag_at(input: &[u8], pos: usize, w: &[u8]) -> (r: Option<usize>)
    requires
        pos <= input@.len(),
    ensures
        r is Some <==> spec_tag(input@, pos as int, w@) is Some,
        r matches Some(e) ==> Some(e as int) == spec_tag(input@, pos as int, w@),
{
    let wl = w.len();
    let n = input.len();
    if n - pos < wl {
        proof {
            assert(spec_tag(input@, pos as int, w@) is None);
        }
        return None;
    }
    let mut j: usize = 0;
    while j < wl
        invariant
            j <= wl,
            pos + wl <= n,
            forall|t: int| 0 <= t < j ==> #[trigger] input@[pos + t] == w@[t],
        decreases wl - j,
    {
        if byte_at(input, pos + j) != byte_at(w, j) {
            proof {
                assert(input@[pos + j] != w@[j as int]);
                if input@.subrange(pos as int, pos + wl) == w@ {
                    assert(input@.subrange(pos as int, pos + wl)[j as int] == w@[j as int]);
                    assert(input@.subrange(pos as int, pos + wl)[j as int] == input@[pos + j]);
                }
            }
            return None;
        }
        j += 1;
    }
    proof {
        assert forall|t: int|
            0 <= t < wl implies input@.subrange(pos as int, pos + wl)[t] == w@[t] by {
            assert(input@[pos + t] == w@[t]);
        }
        assert(input@.subrange(pos as int, pos + wl) =~= w@);
    }
    Some(pos + wl)
}

/// One or more whitespace bytes, exactly as [`spec_ws1`] says.
fn ws1_at(input: &[u8], pos: usize) -> (r: Option<usize>)
    requires
        pos <= input@.len(),
    ensures
        r is Some <==> spec_ws1(input@, pos as int) is Some,
        r matches Some(e) ==> Some(e as int) == spec_ws1(input@, pos as int) && pos < e
            <= input@.len(),
{
    let n = input.len();
    if pos < n {
        let b = byte_at(input, pos);
        if b == 0x20 || b == 0x09 || b == 0x0D || b == 0x0A {
            let e = scan_run(input, pos, 0);
            proof {
                assert(run_end(input@, pos as int, |x: u8| is_ws_byte(x)) == run_end(
                    input@,
                    pos + 1,
                    |x: u8| is_ws_byte(x),
                ));
                assert(e > pos || e == run_end(input@, pos as int, |x: u8| is_ws_byte(x)));
                if e == pos as usize {
                    assert(run_end(input@, pos + 1, |x: u8| is_ws_byte(x)) >= pos + 1) by {
                        lemma_run_end_ge(input@, pos + 1, |x: u8| is_ws_byte(x));
                    }
                }
            }
            return Some(e);
        }
    }
    None
}

proof fn lemma_run_end_ge(input: Seq<u8>, pos: int, class: spec_fn(u8) -> bool)
    requires
        0 <= pos <= input.len(),
    ensures
        pos <= run_end(input, pos, class) <= input.len(),
    decreases input.len() - pos,
{
    if pos < input.len() && class(input[pos]) {
        lemma_run_end_ge(input, pos + 1, class);
    }
}

proof fn lemma_run_end_class(input: Seq<u8>, pos: int, class: spec_fn(u8) -> bool)
    requires
        0 <= pos <= input.len(),
    ensures
        forall|j: int| pos <= j < run_end(input, pos, class) ==> class(#[trigger] input[j]),
    decreases input.len() - pos,
{
    if pos < input.len() && class(input[pos]) {
        lemma_run_end_class(input, pos + 1, class);
        lemma_run_end_ge(input, pos + 1, class);
    }
}

/// A keyword given as text, matched against the bytes.
pub open spec fn spec_tag_s(input: Seq<u8>, pos: int, w: Seq<char>) -> Option<int> {
    spec_tag(input, pos, vstd::utf8::encode_utf8(w))
}

fn tag_str(input: &[u8], pos: usize, w: &str) -> (r: Option<usize>)
    requires
        pos <= input@.len(),
    ensures
        r is Some <==> spec_tag_s(input@, pos as int, w@) is Some,
        r matches Some(e) ==> Some(e as int) == spec_tag_s(input@, pos as int, w@) && pos <= e
            <= input@.len(),
{
    tag_at(input, pos, w.as_bytes())
}

/// The bytes of `input[a..b]`, copied out.
#[verifier::loop_isolation(false)]
fn bytes_of_range(input: &[u8], a: usize, b: usize) -> (r: Vec<u8>)
    requires
        a <= b <= input@.len(),
    ensures
        r@ == input@.subrange(a as int, b as int),
{
    let mut r: Vec<u8> = Vec::new();
    let mut i = a;
    proof {
        assert(r@ =~= input@.subrange(a as int, a as int));
    }
    while i < b
        invariant
            a <= i <= b,
            r@ =~= input@.subrange(a as int, i as int),
        decreases b - i,
    {
        r.push(byte_at(input, i));
        proof {
            assert(r@ =~= input@.subrange(a as int, i + 1));
        }
        i += 1;
    }
    r
}

/// The value of a run of ASCII digit bytes, most significant first.
pub open spec fn bdigits_val(s: Seq<u8>) -> int
    decreases s.len(),
{
    if s.len() == 0 {
        0
    } else {
        bdigits_val(s.drop_last()) * 10 + (s.last() - 0x30)
    }
}

proof fn lemma_bdigits_val_nonneg(s: Seq<u8>)
    requires
        forall|i: int| 0 <= i < s.len() ==> is_digit_byte(#[trigger] s[i]),
    ensures
        bdigits_val(s) >= 0,
    decreases s.len(),
{
    if s.len() > 0 {
        lemma_bdigits_val_nonneg(s.drop_last());
    }
}

proof fn lemma_bdigits_val_prefix(s: Seq<u8>, k: int)
    requires
        0 <= k <= s.len(),
        forall|i: int| 0 <= i < s.len() ==> is_digit_byte(#[trigger] s[i]),
    ensures
        bdigits_val(s) >= bdigits_val(s.take(k)),
    decreases s.len(),
{
    if k < s.len() {
        lemma_bdigits_val_prefix(s.drop_last(), k);
        assert(s.drop_last().take(k) =~= s.take(k));
        lemma_bdigits_val_nonneg(s.drop_last());
        assert(bdigits_val(s.drop_last()) * 10 >= bdigits_val(s.drop_last())) by (nonlinear_arith)
            requires
                bdigits_val(s.drop_last()) >= 0,
        ;
    } else {
        assert(s.take(k) =~= s);
    }
}

/// A decimal numeral: a digit-led run of digits; a numeral whose run
/// carries an underscore, or whose value leaves `i64`, decodes to
/// nothing.
pub open spec fn spec_decimal(input: Seq<u8>, pos: int) -> Option<(int, int)> {
    if 0 <= pos < input.len() && is_digit_byte(input[pos]) {
        let end = run_end(input, pos, |b: u8| is_numeral_byte(b));
        let span = input.subrange(pos, end);
        if exists|i: int| 0 <= i < span.len() && span[i] == 0x5F {
            None
        } else if bdigits_val(span) > i64::MAX as int {
            None
        } else {
            Some((end, bdigits_val(span)))
        }
    } else {
        None
    }
}

/// Reads a decimal numeral, exactly as [`spec_decimal`] says.
#[verifier::loop_isolation(false)]
pub fn decimal(input: &[u8], pos: usize) -> (r: Option<(usize, i64)>)
    requires
        pos <= input@.len(),
    ensures
        r is Some <==> spec_decimal(input@, pos as int) is Some,
        r matches Some(p) ==> Some((p.0 as int, p.1 as int)) == spec_decimal(input@, pos as int)
            && pos < p.0 <= input@.len() && p.1 >= 0,
{
    let n = input.len();
    if pos >= n || !{
        let b = byte_at(input, pos);
        0x30 <= b && b <= 0x39
    } {
        return None;
    }
    let end = scan_run(input, pos, 3);
    let ghost span = input@.subrange(pos as int, end as int);
    proof {
        lemma_run_end_class(input@, pos as int, |b: u8| is_numeral_byte(b));
        assert(end > pos) by {
            assert(is_numeral_byte(input@[pos as int]));
            lemma_run_end_ge(input@, pos + 1, |b: u8| is_numeral_byte(b));
        }
    }
    let mut acc: u128 = 0;
    let mut j = pos;
    while j < end
        invariant
            pos <= j <= end <= input@.len(),
            span == input@.subrange(pos as int, end as int),
            forall|t: int| pos <= t < j ==> is_digit_byte(#[trigger] input@[t]),
            acc as int == bdigits_val(span.take(j - pos)),
            acc <= i64::MAX as u128,
        decreases end - j,
    {
        let b = byte_at(input, j);
        if b == 0x5F {
            proof {
                assert(span[j - pos] == 0x5F);
            }
            return None;
        }
        proof {
            assert(is_numeral_byte(input@[j as int]));
            assert(span.take(j + 1 - pos).drop_last() =~= span.take(j - pos));
            assert(span.take(j + 1 - pos).last() == input@[j as int]);
        }
        acc = acc * 10 + (b - 0x30) as u128;
        if acc > i64::MAX as u128 {
            proof {
                if exists|i: int| 0 <= i < span.len() && span[i] == 0x5F {
                } else {
                    assert forall|i: int| 0 <= i < span.len() implies is_digit_byte(
                        #[trigger] span[i],
                    ) by {
                        assert(span[i] == input@[pos + i]);
                        assert(is_numeral_byte(input@[pos + i]));
                        assert(span[i] != 0x5F);
                    }
                    lemma_bdigits_val_prefix(span, j + 1 - pos);
                }
            }
            return None;
        }
        j += 1;
    }
    proof {
        assert(span.take(end - pos) =~= span);
        assert(forall|i: int| 0 <= i < span.len() ==> #[trigger] span[i] == input@[pos + i]);
        assert(!(exists|i: int| 0 <= i < span.len() && span[i] == 0x5F));
    }
    Some((end, acc as i64))
}

/// The nine color names, tried in their fixed order, as prefixes.
pub open spec fn spec_named_color_b(input: Seq<u8>, pos: int) -> Option<(int, Color)> {
    if spec_tag_s(input, pos, "BLACK"@) is Some {
        Some((spec_tag_s(input, pos, "BLACK"@)->0, Color { r: 0, g: 0, b: 0 }))
    } else if spec_tag_s(input, pos, "WHITE"@) is Some {
        Some((spec_tag_s(input, pos, "WHITE"@)->0, Color { r: 0xFF, g: 0xFF, b: 0xFF }))
    } else if spec_tag_s(input, pos, "ORANGE"@) is Some {
        Some((spec_tag_s(input, pos, "ORANGE"@)->0, Color { r: 0xFF, g: 0xA5, b: 0 }))
    } else if spec_tag_s(input, pos, "BLUE"@) is Some {
        Some((spec_tag_s(input, pos, "BLUE"@)->0, Color { r: 0, g: 0, b: 0xFF }))
    } else if spec_tag_s(input, pos, "GREEN"@) is Some {
        Some((spec_tag_s(input, pos, "GREEN"@)->0, Color { r: 0, g: 0x80, b: 0 }))
    } else if spec_tag_s(input, pos, "CYAN"@) is Some {
        Some((spec_tag_s(input, pos, "CYAN"@)->0, Color { r: 0, g: 0xFF, b: 0xFF }))
    } else if spec_tag_s(input, pos, "RED"@) is Some {
        Some((spec_tag_s(input, pos, "RED"@)->0, Color { r: 0xFF, g: 0, b: 0 }))
    } else if spec_tag_s(input, pos, "MAGENTA"@) is Some {
        Some((spec_tag_s(input, pos, "MAGENTA"@)->0, Color { r: 0xFF, g: 0, b: 0xFF }))
    } else if spec_tag_s(input, pos, "YELLOW"@) is Some {
        Some((spec_tag_s(input, pos, "YELLOW"@)->0, Color { r: 0xFF, g: 0xFF, b: 0 }))
    } else {
        None
    }
}

/// Reads a named color, exactly as [`spec_named_color_b`] says.
pub fn named_color_parser(input: &[u8], pos: usize) -> (r: Option<(usize, Color)>)
    requires
        pos <= input@.len(),
    ensures
        r is Some <==> spec_named_color_b(input@, pos as int) is Some,
        r matches Some(p) ==> Some((p.0 as int, p.1)) == spec_named_color_b(input@, pos as int)
            && p.0 <= input@.len(),
{
    if let Some(e) = tag_str(input, pos, "BLACK") {
        Some((e, Color { r: 0, g: 0, b: 0 }))
    } else if let Some(e) = tag_str(input, pos, "WHITE") {
        Some((e, Color { r: 0xFF, g: 0xFF, b: 0xFF }))
    } else if let Some(e) = tag_str(input, pos, "ORANGE") {
        Some((e, Color { r: 0xFF, g: 0xA5, b: 0 }))
    } else if let Some(e) = tag_str(input, pos, "BLUE") {
        Some((e, Color { r: 0, g: 0, b: 0xFF }))
    } else if let Some(e) = tag_str(input, pos, "GREEN") {
        Some((e, Color { r: 0, g: 0x80, b: 0 }))
    } else if let Some(e) = tag_str(input, pos, "CYAN") {
        Some((e, Color { r: 0, g: 0xFF, b: 0xFF }))
    } else if let Some(e) = tag_str(input, pos, "RED") {
        Some((e, Color { r: 0xFF, g: 0, b: 0 }))
    } else if let Some(e) = tag_str(input, pos, "MAGENTA") {
        Some((e, Color { r: 0xFF, g: 0, b: 0xFF }))
    } else if let Some(e) = tag_str(input, pos, "YELLOW") {
        Some((e, Color { r: 0xFF, g: 0xFF, b: 0 }))
    } else {
        None
    }
}

/// `GRAY`/`GREY`, whitespace, and a level; the channel is `5 + 25·level`,
/// reduced to its low byte.
pub open spec fn spec_gray_color_b(input: Seq<u8>, pos: int) -> Option<(int, Color)> {
    let tag = if spec_tag_s(input, pos, "GRAY"@) is Some {
        spec_tag_s(input, pos, "GRAY"@)
    } else {
        spec_tag_s(input, pos, "GREY"@)
    };
    match tag {
        None => None,
        Some(p1) => match spec_ws1(input, p1) {
            None => None,
            Some(p2) => match spec_decimal(input, p2) {
                None => None,
                Some((end, level)) => {
                    let ch = ((5 + level * 25) % 256) as u8;
                    Some((end, Color { r: ch, g: ch, b: ch }))
                },
            },
        },
    }
}

/// Reads a grayscale color, exactly as [`spec_gray_color_b`] says.
pub fn gray_color_parser(input: &[u8], pos: usize) -> (r: Option<(usize, Color)>)
    requires
        pos <= input@.len(),
    ensures
        r is Some <==> spec_gray_color_b(input@, pos as int) is Some,
        r matches Some(p) ==> Some((p.0 as int, p.1)) == spec_gray_color_b(input@, pos as int)
            && p.0 <= input@.len(),
{
    let p1 = match tag_str(input, pos, "GRAY") {
        Some(e) => e,
        None => match tag_str(input, pos, "GREY") {
            Some(e) => e,
            None => {
                return None;
            },
        },
    };
    let p2 = match ws1_at(input, p1) {
        Some(e) => e,
        None => {
            return None;
        },
    };
    match decimal(input, p2) {
        Some((end, level)) => {
            let wide: i128 = 5 + (level as i128) * 25;
            let ch: u8 = (wide % 256) as u8;
            Some((end, Color { r: ch, g: ch, b: ch }))
        },
        None => None,
    }
}

/// A color value: grayscale first, then the named table.
pub open spec fn spec_color_value(input: Seq<u8>, pos: int) -> Option<(int, Color)> {
    if spec_gray_color_b(input, pos) is Some {
        spec_gray_color_b(input, pos)
    } else {
        spec_named_color_b(input, pos)
    }
}

/// Reads a color value, exactly as [`spec_color_value`] says.
pub fn color_value_parser(input: &[u8], pos: usize) -> (r: Option<(usize, Color)>)
    requires
        pos <= input@.len(),
    ensures
        r is Some <==> spec_color_value(input@, pos as int) is Some,
        r matches Some(p) ==> Some((p.0 as int, p.1)) == spec_color_value(input@, pos as int)
            && p.0 <= input@.len(),
{
    match gray_color_parser(input, pos) {
        Some(p) => Some(p),
        None => named_color_parser(input, pos),
    }
}

/// The legend mask: `%` and four `0`/`1` flag bytes.
pub open spec fn spec_legend_b(input: Seq<u8>, pos: int) -> Option<(int, Legend)> {
    if 0 <= pos && pos + 5 <= input.len() && input[pos] == 0x25 && (forall|i: int|
        pos + 1 <= i < pos + 5 ==> input[i] == 0x30 || #[trigger] input[i] == 0x31) {
        Some(
            (
                pos + 5,
                Legend {
                    max: input[pos + 1] == 0x31,
                    min: input[pos + 2] == 0x31,
                    max_line: input[pos + 3] == 0x31,
                    min_line: input[pos + 4] == 0x31,
                },
            ),
        )
    } else {
        None
    }
}

/// Reads a legend mask, exactly as [`spec_legend_b`] says.
pub fn legend_parser(input: &[u8], pos: usize) -> (r: Option<(usize, Legend)>)
    requires
        pos <= input@.len(),
    ensures
        r is Some <==> spec_legend_b(input@, pos as int) is Some,
        r matches Some(p) ==> Some((p.0 as int, p.1)) == spec_legend_b(input@, pos as int) && p.0
            <= input@.len(),
{
    let n = input.len();
    if n - pos < 5 {
        return None;
    }
    let b0 = byte_at(input, pos);
    let b1 = byte_at(input, pos + 1);
    let b2 = byte_at(input, pos + 2);
    let b3 = byte_at(input, pos + 3);
    let b4 = byte_at(input, pos + 4);
    if b0 == 0x25 && (b1 == 0x30 || b1 == 0x31) && (b2 == 0x30 || b2 == 0x31) && (b3 == 0x30 || b3
        == 0x31) && (b4 == 0x30 || b4 == 0x31) {
        Some(
            (
                pos + 5,
                Legend { max: b1 == 0x31, min: b2 == 0x31, max_line: b3 == 0x31, min_line: b4
                    == 0x31 },
            ),
        )
    } else {
        proof {
            if spec_legend_b(input@, pos as int) is Some {
                assert(input@[pos + 1] == 0x30 || input@[pos + 1] == 0x31);
                assert(input@[pos + 2] == 0x30 || input@[pos + 2] == 0x31);
                assert(input@[pos + 3] == 0x30 || input@[pos + 3] == 0x31);
                assert(input@[pos + 4] == 0x30 || input@[pos + 4] == 0x31);
            }
        }
        None
    }
}

/// An identifier: a run of letters, digits and underscores, decoded.
pub open spec fn spec_identifier(input: Seq<u8>, pos: int) -> Option<(int, Seq<char>)> {
    let end = run_end(input, pos, |b: u8| is_word_byte(b));
    let span = input.subrange(pos, end);
    if end > pos && valid_utf8(span) {
        Some((end, decode_utf8(span)))
    } else {
        None
    }
}

/// Reads an identifier, exactly as [`spec_identifier`] says.
pub fn identifier_parser(input: &[u8], pos: usize) -> (r: Option<(usize, DebugInstructionAtom)>)
    requires
        pos <= input@.len(),
    ensures
        r is Some <==> spec_identifier(input@, pos as int) is Some,
        r matches Some(p) ==> ({
            let q = spec_identifier(input@, pos as int)->0;
            p.0 as int == q.0 && p.1@ == (DebugInstructionAtomV::Identifier { value: q.1 }) && p.0
                <= input@.len()
        }),
{
    let end = scan_run(input, pos, 1);
    if end == pos {
        return None;
    }
    let bytes = bytes_of_range(input, pos, end);
    match utf8_to_string(&bytes) {
        Some(value) => Some((end, DebugInstructionAtom::Identifier { value })),
        None => None,
    }
}

/// A sigil-prefixed symbol: a backtick and an identifier.
pub open spec fn spec_symbol(input: Seq<u8>, pos: int) -> Option<(int, Seq<char>)> {
    if 0 <= pos < input.len() && input[pos] == 0x60 {
        spec_identifier(input, pos + 1)
    } else {
        None
    }
}

/// Reads a symbol, exactly as [`spec_symbol`] says.
pub fn symbol_parser(input: &[u8], pos: usize) -> (r: Option<(usize, DebugInstructionAtom)>)
    requires
        pos <= input@.len(),
    ensures
        r is Some <==> spec_symbol(input@, pos as int) is Some,
        r matches Some(p) ==> ({
            let q = spec_symbol(input@, pos as int)->0;
            p.0 as int == q.0 && p.1@ == (DebugInstructionAtomV::Symbol { value: q.1 }) && p.0
                <= input@.len()
        }),
{
    let n = input.len();
    if pos < n && byte_at(input, pos) == 0x60 {
        match identifier_parser(input, pos + 1) {
            Some((end, DebugInstructionAtom::Identifier { value })) => Some(
                (end, DebugInstructionAtom::Symbol { value }),
            ),
            _ => None,
        }
    } else {
        None
    }
}

/// A quoted string: a run (possibly empty) of letters, digits, spaces and
/// underscores between single quotes, decoded.
pub open spec fn spec_string(input: Seq<u8>, pos: int) -> Option<(int, Seq<char>)> {
    if 0 <= pos < input.len() && input[pos] == 0x27 {
        let end = run_end(input, pos + 1, |b: u8| is_text_byte(b));
        let span = input.subrange(pos + 1, end);
        if end < input.len() && input[end] == 0x27 && valid_utf8(span) {
            Some((end + 1, decode_utf8(span)))
        } else {
            None
        }
    } else {
        None
    }
}

/// A keyword, whitespace, and one numeral.
pub open spec fn spec_kw_num(input: Seq<u8>, pos: int, kw: Seq<char>) -> Option<(int, int)> {
    match spec_tag_s(input, pos, kw) {
        None => None,
        Some(p1) => match spec_ws1(input, p1) {
            None => None,
            Some(p2) => spec_decimal(input, p2),
        },
    }
}

/// A keyword, whitespace, and two numerals.
pub open spec fn spec_kw_num2(input: Seq<u8>, pos: int, kw: Seq<char>) -> Option<(int, int, int)> {
    match spec_kw_num(input, pos, kw) {
        None => None,
        Some((p3, x)) => match spec_ws1(input, p3) {
            None => None,
            Some(p4) => match spec_decimal(input, p4) {
                None => None,
                Some((end, y)) => Some((end, x, y)),
            },
        },
    }
}

/// `TITLE` and a quoted string.
pub open spec fn spec_title(input: Seq<u8>, pos: int) -> Option<(int, Seq<char>)> {
    match spec_tag_s(input, pos, "TITLE"@) {
        None => None,
        Some(p1) => match spec_ws1(input, p1) {
            None => None,
            Some(p2) => spec_string(input, p2),
        },
    }
}

/// Whitespace and a color value.
pub open spec fn spec_ws_color(input: Seq<u8>, pos: int) -> Option<(int, Color)> {
    match spec_ws1(input, pos) {
        None => None,
        Some(p) => spec_color_value(input, p),
    }
}

/// `COLOR` and one or two color values: background, then optionally the
/// grid.
pub open spec fn spec_color_atom(input: Seq<u8>, pos: int) -> Option<(int, DebugInstructionAtomV)> {
    match spec_tag_s(input, pos, "COLOR"@) {
        None => None,
        Some(p1) => match spec_ws_color(input, p1) {
            None => None,
            Some((p2, background)) => match spec_ws_color(input, p2) {
                None => Some((p2, DebugInstructionAtomV::Color { background, grid: None })),
                Some((p3, g)) => Some(
                    (p3, DebugInstructionAtomV::Color { background, grid: Some(g) }),
                ),
            },
        },
    }
}

/// One configuration atom, the alternatives in their fixed order.
pub open spec fn spec_config_atom(input: Seq<u8>, pos: int) -> Option<(
    int,
    DebugInstructionAtomV,
)> {
    if spec_title(input, pos) is Some {
        let (e, t) = spec_title(input, pos)->0;
        Some((e, DebugInstructionAtomV::Title(t)))
    } else if spec_kw_num2(input, pos, "POS"@) is Some {
        let (e, x, y) = spec_kw_num2(input, pos, "POS"@)->0;
        Some((e, DebugInstructionAtomV::Pos(x, y)))
    } else if spec_kw_num2(input, pos, "SIZE"@) is Some {
        let (e, x, y) = spec_kw_num2(input, pos, "SIZE"@)->0;
        Some((e, DebugInstructionAtomV::Size(x, y)))
    } else if spec_kw_num(input, pos, "SAMPLES"@) is Some {
        let (e, v) = spec_kw_num(input, pos, "SAMPLES"@)->0;
        Some((e, DebugInstructionAtomV::Samples(v)))
    } else if spec_kw_num(input, pos, "RATE"@) is Some {
        let (e, v) = spec_kw_num(input, pos, "RATE"@)->0;
        Some((e, DebugInstructionAtomV::Rate(v)))
    } else if spec_kw_num(input, pos, "DOTSIZE"@) is Some {
        let (e, v) = spec_kw_num(input, pos, "DOTSIZE"@)->0;
        Some((e, DebugInstructionAtomV::DotSize(v)))
    } else if spec_kw_num(input, pos, "LINESIZE"@) is Some {
        let (e, v) = spec_kw_num(input, pos, "LINESIZE"@)->0;
        Some((e, DebugInstructionAtomV::LineSize(v)))
    } else if spec_kw_num(input, pos, "TEXTSIZE"@) is Some {
        let (e, v) = spec_kw_num(input, pos, "TEXTSIZE"@)->0;
        Some((e, DebugInstructionAtomV::TextSize(v)))
    } else if spec_color_atom(input, pos) is Some {
        spec_color_atom(input, pos)
    } else {
        None
    }
}

proof fn lemma_ws1_ge(input: Seq<u8>, pos: int)
    requires
        0 <= pos,
    ensures
        spec_ws1(input, pos) matches Some(e) ==> pos < e <= input.len(),
{
    if spec_ws1(input, pos) is Some {
        lemma_run_end_ge(input, pos + 1, |b: u8| is_ws_byte(b));
    }
}

proof fn lemma_decimal_ge(input: Seq<u8>, pos: int)
    requires
        0 <= pos,
    ensures
        spec_decimal(input, pos) matches Some(p) ==> pos < p.0 <= input.len(),
{
    if spec_decimal(input, pos) is Some {
        lemma_run_end_ge(input, pos + 1, |b: u8| is_numeral_byte(b));
    }
}

proof fn lemma_string_ge(input: Seq<u8>, pos: int)
    requires
        0 <= pos,
    ensures
        spec_string(input, pos) matches Some(p) ==> pos < p.0 <= input.len(),
{
    if spec_string(input, pos) is Some {
        lemma_run_end_ge(input, pos + 1, |b: u8| is_text_byte(b));
    }
}

proof fn lemma_kw_num_ge(input: Seq<u8>, pos: int, kw: Seq<char>)
    requires
        0 <= pos,
    ensures
        spec_kw_num(input, pos, kw) matches Some(p) ==> pos <= p.0 <= input.len(),
{
    match spec_tag_s(input, pos, kw) {
        None => {},
        Some(p1) => {
            lemma_ws1_ge(input, p1);
            match spec_ws1(input, p1) {
                None => {},
                Some(p2) => lemma_decimal_ge(input, p2),
            }
        },
    }
}

proof fn lemma_kw_num2_ge(input: Seq<u8>, pos: int, kw: Seq<char>)
    requires
        0 <= pos,
    ensures
        spec_kw_num2(input, pos, kw) matches Some(p) ==> pos <= p.0 <= input.len(),
{
    lemma_kw_num_ge(input, pos, kw);
    match spec_kw_num(input, pos, kw) {
        None => {},
        Some((p3, _x)) => {
            lemma_ws1_ge(input, p3);
            match spec_ws1(input, p3) {
                None => {},
                Some(p4) => lemma_decimal_ge(input, p4),
            }
        },
    }
}

proof fn lemma_color_value_ge(input: Seq<u8>, pos: int)
    requires
        0 <= pos,
    ensures
        spec_color_value(input, pos) matches Some(p) ==> pos <= p.0 <= input.len(),
{
    let g = if spec_tag_s(input, pos, "GRAY"@) is Some {
        spec_tag_s(input, pos, "GRAY"@)
    } else {
        spec_tag_s(input, pos, "GREY"@)
    };
    match g {
        None => {},
        Some(p1) => {
            lemma_ws1_ge(input, p1);
            match spec_ws1(input, p1) {
                None => {},
                Some(p2) => lemma_decimal_ge(input, p2),
            }
        },
    }
}

proof fn lemma_ws_color_ge(input: Seq<u8>, pos: int)
    requires
        0 <= pos,
    ensures
        spec_ws_color(input, pos) matches Some(p) ==> pos <= p.0 <= input.len(),
{
    lemma_ws1_ge(input, pos);
    match spec_ws1(input, pos) {
        None => {},
        Some(p1) => lemma_color_value_ge(input, p1),
    }
}

proof fn lemma_config_atom_ge(input: Seq<u8>, pos: int)
    requires
        0 <= pos,
    ensures
        spec_config_atom(input, pos) matches Some(p) ==> pos <= p.0 <= input.len(),
{
    match spec_tag_s(input, pos, "TITLE"@) {
        None => {},
        Some(p1) => {
            lemma_ws1_ge(input, p1);
            match spec_ws1(input, p1) {
                None => {},
                Some(p2) => lemma_string_ge(input, p2),
            }
        },
    }
    lemma_kw_num2_ge(input, pos, "POS"@);
    lemma_kw_num2_ge(input, pos, "SIZE"@);
    lemma_kw_num_ge(input, pos, "SAMPLES"@);
    lemma_kw_num_ge(input, pos, "RATE"@);
    lemma_kw_num_ge(input, pos, "DOTSIZE"@);
    lemma_kw_num_ge(input, pos, "LINESIZE"@);
    lemma_kw_num_ge(input, pos, "TEXTSIZE"@);
    match spec_tag_s(input, pos, "COLOR"@) {
        None => {},
        Some(p1) => {
            lemma_ws_color_ge(input, p1);
            match spec_ws_color(input, p1) {
                None => {},
                Some((p2, _c)) => lemma_ws_color_ge(input, p2),
            }
        },
    }
}

/// The configuration stream: as many whitespace-preceded atoms as parse.
pub open spec fn spec_configs(input: Seq<u8>, pos: int) -> (int, Seq<DebugInstructionAtomV>)
    decreases input.len() - pos,
    via spec_configs_decreases
{
    if 0 <= pos <= input.len() {
        match spec_ws1(input, pos) {
            None => (pos, Seq::empty()),
            Some(p1) => match spec_config_atom(input, p1) {
                None => (pos, Seq::empty()),
                Some((p2, a)) => {
                    let (end, rest) = spec_configs(input, p2);
                    (end, seq![a] + rest)
                },
            },
        }
    } else {
        (pos, Seq::empty())
    }
}

#[via_fn]
proof fn spec_configs_decreases(input: Seq<u8>, pos: int) {
    if 0 <= pos <= input.len() {
        lemma_ws1_ge(input, pos);
        match spec_ws1(input, pos) {
            Some(p1) => lemma_config_atom_ge(input, p1),
            None => {},
        }
    }
}

/// Reads a quoted string, exactly as [`spec_string`] says.
pub fn string_parser(input: &[u8], pos: usize) -> (r: Option<(usize, DebugInstructionAtom)>)
    requires
        pos <= input@.len(),
    ensures
        r is Some <==> spec_string(input@, pos as int) is Some,
        r matches Some(p) ==> ({
            let q = spec_string(input@, pos as int)->0;
            p.0 as int == q.0 && p.1@ == (DebugInstructionAtomV::String { value: q.1 }) && p.0
                <= input@.len()
        }),
{
    let n = input.len();
    if pos < n && byte_at(input, pos) == 0x27 {
        let end = scan_run(input, pos + 1, 2);
        if end < n && byte_at(input, end) == 0x27 {
            let bytes = bytes_of_range(input, pos + 1, end);
            match utf8_to_string(&bytes) {
                Some(value) => Some((end + 1, DebugInstructionAtom::String { value })),
                None => None,
            }
        } else {
            None
        }
    } else {
        None
    }
}

fn kw_num(input: &[u8], pos: usize, kw: &str) -> (r: Option<(usize, i64)>)
    requires
        pos <= input@.len(),
    ensures
        r is Some <==> spec_kw_num(input@, pos as int, kw@) is Some,
        r matches Some(p) ==> Some((p.0 as int, p.1 as int)) == spec_kw_num(
            input@,
            pos as int,
            kw@,
        ) && p.0 <= input@.len(),
{
    let p1 = match tag_str(input, pos, kw) {
        Some(e) => e,
        None => {
            return None;
        },
    };
    let p2 = match ws1_at(input, p1) {
        Some(e) => e,
        None => {
            return None;
        },
    };
    decimal(input, p2)
}

fn kw_num2(input: &[u8], pos: usize, kw: &str) -> (r: Option<(usize, i64, i64)>)
    requires
        pos <= input@.len(),
    ensures
        r is Some <==> spec_kw_num2(input@, pos as int, kw@) is Some,
        r matches Some(p) ==> Some((p.0 as int, p.1 as int, p.2 as int)) == spec_kw_num2(
            input@,
            pos as int,
            kw@,
        ) && p.0 <= input@.len(),
{
    let (p3, x) = match kw_num(input, pos, kw) {
        Some(p) => p,
        None => {
            return None;
        },
    };
    let p4 = match ws1_at(input, p3) {
        Some(e) => e,
        None => {
            return None;
        },
    };
    match decimal(input, p4) {
        Some((end, y)) => Some((end, x, y)),
        None => None,
    }
}

/// Reads `TITLE` and its quoted string, exactly as [`spec_title`] says.
pub fn title_parser(input: &[u8], pos: usize) -> (r: Option<(usize, DebugInstructionAtom)>)
    requires
        pos <= input@.len(),
    ensures
        r is Some <==> spec_title(input@, pos as int) is Some,
        r matches Some(p) ==> ({
            let q = spec_title(input@, pos as int)->0;
            p.0 as int == q.0 && p.1@ == DebugInstructionAtomV::Title(q.1) && p.0 <= input@.len()
        }),
{
    let p1 = match tag_str(input, pos, "TITLE") {
        Some(e) => e,
        None => {
            return None;
        },
    };
    let p2 = match ws1_at(input, p1) {
        Some(e) => e,
        None => {
            return None;
        },
    };
    match string_parser(input, p2) {
        Some((end, DebugInstructionAtom::String { value })) => Some(
            (end, DebugInstructionAtom::Title(value)),
        ),
        _ => None,
    }
}

/// Reads `POS` and two numerals.
pub fn pos_parser(input: &[u8], pos: usize) -> (r: Option<(usize, DebugInstructionAtom)>)
    requires
        pos <= input@.len(),
    ensures
        r is Some <==> spec_kw_num2(input@, pos as int, "POS"@) is Some,
        r matches Some(p) ==> ({
            let q = spec_kw_num2(input@, pos as int, "POS"@)->0;
            p.0 as int == q.0 && p.1@ == DebugInstructionAtomV::Pos(q.1, q.2) && p.0
                <= input@.len()
        }),
{
    match kw_num2(input, pos, "POS") {
        Some((end, x, y)) => Some((end, DebugInstructionAtom::Pos(x, y))),
        None => None,
    }
}

/// Reads `SIZE` and two numerals.
pub fn size_parser(input: &[u8], pos: usize) -> (r: Option<(usize, DebugInstructionAtom)>)
    requires
        pos <= input@.len(),
    ensures
        r is Some <==> spec_kw_num2(input@, pos as int, "SIZE"@) is Some,
        r matches Some(p) ==> ({
            let q = spec_kw_num2(input@, pos as int, "SIZE"@)->0;
            p.0 as int == q.0 && p.1@ == DebugInstructionAtomV::Size(q.1, q.2) && p.0
                <= input@.len()
        }),
{
    match kw_num2(input, pos, "SIZE") {
        Some((end, x, y)) => Some((end, DebugInstructionAtom::Size(x, y))),
        None => None,
    }
}

/// Reads `SAMPLES` and a numeral.
pub fn samples_parser(input: &[u8], pos: usize) -> (r: Option<(usize, DebugInstructionAtom)>)
    requires
        pos <= input@.len(),
    ensures
        r is Some <==> spec_kw_num(input@, pos as int, "SAMPLES"@) is Some,
        r matches Some(p) ==> ({
            let q = spec_kw_num(input@, pos as int, "SAMPLES"@)->0;
            p.0 as int == q.0 && p.1@ == DebugInstructionAtomV::Samples(q.1) && p.0
                <= input@.len()
        }),
{
    match kw_num(input, pos, "SAMPLES") {
        Some((end, v)) => Some((end, DebugInstructionAtom::Samples(v))),
        None => None,
    }
}

/// Reads `RATE` and a numeral.
pub fn rate_parser(input: &[u8], pos: usize) -> (r: Option<(usize, DebugInstructionAtom)>)
    requires
        pos <= input@.len(),
    ensures
        r is Some <==> spec_kw_num(input@, pos as int, "RATE"@) is Some,
        r matches Some(p) ==> ({
            let q = spec_kw_num(input@, pos as int, "RATE"@)->0;
            p.0 as int == q.0 && p.1@ == DebugInstructionAtomV::Rate(q.1) && p.0 <= input@.len()
        }),
{
    match kw_num(input, pos, "RATE") {
        Some((end, v)) => Some((end, DebugInstructionAtom::Rate(v))),
        None => None,
    }
}

/// Reads `DOTSIZE` and a numeral.
pub fn dotsize_parser(input: &[u8], pos: usize) -> (r: Option<(usize, DebugInstructionAtom)>)
    requires
        pos <= input@.len(),
    ensures
        r is Some <==> spec_kw_num(input@, pos as int, "DOTSIZE"@) is Some,
        r matches Some(p) ==> ({
            let q = spec_kw_num(input@, pos as int, "DOTSIZE"@)->0;
            p.0 as int == q.0 && p.1@ == DebugInstructionAtomV::DotSize(q.1) && p.0
                <= input@.len()
        }),
{
    match kw_num(input, pos, "DOTSIZE") {
        Some((end, v)) => Some((end, DebugInstructionAtom::DotSize(v))),
        None => None,
    }
}

/// Reads `LINESIZE` and a numeral.
pub fn linesize_parser(input: &[u8], pos: usize) -> (r: Option<(usize, DebugInstructionAtom)>)
    requires
        pos <= input@.len(),
    ensures
        r is Some <==> spec_kw_num(input@, pos as int, "LINESIZE"@) is Some,
        r matches Some(p) ==> ({
            let q = spec_kw_num(input@, pos as int, "LINESIZE"@)->0;
            p.0 as int == q.0 && p.1@ == DebugInstructionAtomV::LineSize(q.1) && p.0
                <= input@.len()
        }),
{
    match kw_num(input, pos, "LINESIZE") {
        Some((end, v)) => Some((end, DebugInstructionAtom::LineSize(v))),
        None => None,
    }
}

/// Reads `TEXTSIZE` and a numeral.
pub fn textsize_parser(input: &[u8], pos: usize) -> (r: Option<(usize, DebugInstructionAtom)>)
    requires
        pos <= input@.len(),
    ensures
        r is Some <==> spec_kw_num(input@, pos as int, "TEXTSIZE"@) is Some,
        r matches Some(p) ==> ({
            let q = spec_kw_num(input@, pos as int, "TEXTSIZE"@)->0;
            p.0 as int == q.0 && p.1@ == DebugInstructionAtomV::TextSize(q.1) && p.0
                <= input@.len()
        }),
{
    match kw_num(input, pos, "TEXTSIZE") {
        Some((end, v)) => Some((end, DebugInstructionAtom::TextSize(v))),
        None => None,
    }
}

fn ws_color(input: &[u8], pos: usize) -> (r: Option<(usize, Color)>)
    requires
        pos <= input@.len(),
    ensures
        r is Some <==> spec_ws_color(input@, pos as int) is Some,
        r matches Some(p) ==> Some((p.0 as int, p.1)) == spec_ws_color(input@, pos as int) && p.0
            <= input@.len(),
{
    match ws1_at(input, pos) {
        Some(p1) => color_value_parser(input, p1),
        None => None,
    }
}

/// Reads `COLOR` and one or two color values, exactly as
/// [`spec_color_atom`] says.
pub fn color_parser(input: &[u8], pos: usize) -> (r: Option<(usize, DebugInstructionAtom)>)
    requires
        pos <= input@.len(),
    ensures
        r is Some <==> spec_color_atom(input@, pos as int) is Some,
        r matches Some(p) ==> ({
            let q = spec_color_atom(input@, pos as int)->0;
            p.0 as int == q.0 && p.1@ == q.1 && p.0 <= input@.len()
        }),
{
    let p1 = match tag_str(input, pos, "COLOR") {
        Some(e) => e,
        None => {
            return None;
        },
    };
    let (p2, background) = match ws_color(input, p1) {
        Some(p) => p,
        None => {
            return None;
        },
    };
    match ws_color(input, p2) {
        Some((p3, g)) => Some((p3, DebugInstructionAtom::Color { background, grid: Some(g) })),
        None => Some((p2, DebugInstructionAtom::Color { background, grid: None })),
    }
}

fn config_atom(input: &[u8], pos: usize) -> (r: Option<(usize, DebugInstructionAtom)>)
    requires
        pos <= input@.len(),
    ensures
        r is Some <==> spec_config_atom(input@, pos as int) is Some,
        r matches Some(p) ==> ({
            let q = spec_config_atom(input@, pos as int)->0;
            p.0 as int == q.0 && p.1@ == q.1 && p.0 <= input@.len()
        }),
{
    if let Some(p) = title_parser(input, pos) {
        Some(p)
    } else if let Some(p) = pos_parser(input, pos) {
        Some(p)
    } else if let Some(p) = size_parser(input, pos) {
        Some(p)
    } else if let Some(p) = samples_parser(input, pos) {
        Some(p)
    } else if let Some(p) = rate_parser(input, pos) {
        Some(p)
    } else if let Some(p) = dotsize_parser(input, pos) {
        Some(p)
    } else if let Some(p) = linesize_parser(input, pos) {
        Some(p)
    } else if let Some(p) = textsize_parser(input, pos) {
        Some(p)
    } else if let Some(p) = color_parser(input, pos) {
        Some(p)
    } else {
        None
    }
}

/// A whole scope declaration: the `` `SCOPE `` symbol, the name, and the
/// configuration stream after the separating whitespace.
pub open spec fn spec_scope_definition(input: Seq<u8>, pos: int) -> Option<(
    int,
    DebugInstructionV,
)> {
    match spec_tag_s(input, pos, "`SCOPE"@) {
        None => None,
        Some(p1) => match spec_ws1(input, p1) {
            None => None,
            Some(p2) => match spec_identifier(input, p2) {
                None => None,
                Some((p3, name)) => match spec_ws1(input, p3) {
                    None => None,
                    Some(p4) => {
                        let (end, atoms) = spec_configs(input, p4);
                        Some((end, DebugInstructionV::SCOPE { name, configurations: atoms }))
                    },
                },
            },
        },
    }
}

/// Reads the `` `SCOPE `` symbol alone.
pub fn scope_symbol(input: &[u8], pos: usize) -> (r: Option<usize>)
    requires
        pos <= input@.len(),
    ensures
        r is Some <==> spec_tag_s(input@, pos as int, "`SCOPE"@) is Some,
        r matches Some(e) ==> Some(e as int) == spec_tag_s(input@, pos as int, "`SCOPE"@) && e
            <= input@.len(),
{
    tag_str(input, pos, "`SCOPE")
}

/// Reads a scope declaration, exactly as [`spec_scope_definition`] says.
#[verifier::loop_isolation(false)]
pub fn scope_definition_parser(input: &[u8], pos: usize) -> (r: Option<(usize, DebugInstruction)>)
    requires
        pos <= input@.len(),
    ensures
        r is Some <==> spec_scope_definition(input@, pos as int) is Some,
        r matches Some(p) ==> ({
            let q = spec_scope_definition(input@, pos as int)->0;
            p.0 as int == q.0 && p.1@ == q.1 && p.0 <= input@.len()
        }),
{
    let p1 = match scope_symbol(input, pos) {
        Some(e) => e,
        None => {
            return None;
        },
    };
    let p2 = match ws1_at(input, p1) {
        Some(e) => e,
        None => {
            return None;
        },
    };
    let (p3, name) = match identifier_parser(input, p2) {
        Some((e, DebugInstructionAtom::Identifier { value })) => (e, value),
        _ => {
            return None;
        },
    };
    let p4 = match ws1_at(input, p3) {
        Some(e) => e,
        None => {
            return None;
        },
    };
    let mut atoms: Vec<DebugInstructionAtom> = Vec::new();
    let mut cur = p4;
    proof {
        assert(atoms@.map_values(|a: DebugInstructionAtom| a@) =~= Seq::<
            DebugInstructionAtomV,
        >::empty());
    }
    loop
        invariant
            p4 <= cur <= input@.len(),
            spec_configs(input@, p4 as int).0 == spec_configs(input@, cur as int).0,
            spec_configs(input@, p4 as int).1 =~= atoms@.map_values(|a: DebugInstructionAtom| a@)
                + spec_configs(input@, cur as int).1,
        decreases input@.len() - cur,
    {
        let q1 = match ws1_at(input, cur) {
            Some(e) => e,
            None => {
                break ;
            },
        };
        let (q2, a) = match config_atom(input, q1) {
            Some(p) => p,
            None => {
                break ;
            },
        };
        proof {
            lemma_config_atom_ge(input@, q1 as int);
            assert((atoms@.push(a)).map_values(|x: DebugInstructionAtom| x@) =~= atoms@.map_values(
                |x: DebugInstructionAtom| x@,
            ).push(a@));
        }
        atoms.push(a);
        cur = q2;
    }
    proof {
        assert(spec_configs(input@, cur as int).1 =~= Seq::<DebugInstructionAtomV>::empty());
        assert(spec_configs(input@, p4 as int).1 =~= atoms@.map_values(
            |a: DebugInstructionAtom| a@,
        ));
    }
    Some((cur, DebugInstruction::SCOPE { name, configurations: atoms }))
}

/// The numerals after the first in a data row: each behind a comma and
/// optional whitespace.
pub open spec fn spec_data_rest(input: Seq<u8>, pos: int) -> (int, Seq<int>)
    decreases input.len() - pos,
    via spec_data_rest_decreases
{
    if 0 <= pos <= input.len() {
        match spec_tag_s(input, pos, ","@) {
            None => (pos, Seq::empty()),
            Some(p1) => {
                let p2 = run_end(input, p1, |b: u8| is_ws_byte(b));
                match spec_decimal(input, p2) {
                    None => (pos, Seq::empty()),
                    Some((p3, v)) => {
                        let (end, rest) = spec_data_rest(input, p3);
                        (end, seq![v] + rest)
                    },
                }
            },
        }
    } else {
        (pos, Seq::empty())
    }
}

#[via_fn]
proof fn spec_data_rest_decreases(input: Seq<u8>, pos: int) {
    if 0 <= pos <= input.len() {
        match spec_tag_s(input, pos, ","@) {
            None => {},
            Some(p1) => {
                lemma_run_end_ge(input, p1, |b: u8| is_ws_byte(b));
                let p2 = run_end(input, p1, |b: u8| is_ws_byte(b));
                lemma_decimal_ge(input, p2);
            },
        }
    }
}

/// A data row: one numeral, then any number of comma-separated numerals.
pub open spec fn spec_signal_data(input: Seq<u8>, pos: int) -> Option<(int, Seq<int>)> {
    match spec_decimal(input, pos) {
        None => None,
        Some((p1, v)) => {
            let (end, rest) = spec_data_rest(input, p1);
            Some((end, seq![v] + rest))
        },
    }
}

/// Reads a data row, exactly as [`spec_signal_data`] says.
#[verifier::loop_isolation(false)]
pub fn scope_signal_data_parser(input: &[u8], pos: usize) -> (r: Option<(usize, Vec<i64>)>)
    requires
        pos <= input@.len(),
    ensures
        r is Some <==> spec_signal_data(input@, pos as int) is Some,
        r matches Some(p) ==> ({
            let q = spec_signal_data(input@, pos as int)->0;
            p.0 as int == q.0 && p.1@.map_values(|v: i64| v as int) == q.1 && p.0 <= input@.len()
        }),
{
    let (p1, first) = match decimal(input, pos) {
        Some(p) => p,
        None => {
            return None;
        },
    };
    let mut values: Vec<i64> = Vec::new();
    values.push(first);
    let mut cur = p1;
    proof {
        assert(values@.map_values(|v: i64| v as int) =~= seq![first as int]);
    }
    loop
        invariant
            p1 <= cur <= input@.len(),
            spec_data_rest(input@, p1 as int).0 == spec_data_rest(input@, cur as int).0,
            seq![first as int] + spec_data_rest(input@, p1 as int).1 =~= values@.map_values(
                |v: i64| v as int,
            ) + spec_data_rest(input@, cur as int).1,
        decreases input@.len() - cur,
    {
        let q1 = match tag_str(input, cur, ",") {
            Some(e) => e,
            None => {
                break ;
            },
        };
        let q2 = scan_run(input, q1, 0);
        let (q3, v) = match decimal(input, q2) {
            Some(p) => p,
            None => {
                proof {
                    assert(spec_data_rest(input@, cur as int) == (
                        cur as int,
                        Seq::<int>::empty(),
                    ));
                }
                break ;
            },
        };
        proof {
            assert((values@.push(v)).map_values(|x: i64| x as int) =~= values@.map_values(
                |x: i64| x as int,
            ).push(v as int));
            assert(seq![v as int] + spec_data_rest(input@, q3 as int).1 =~= Seq::<
                int,
            >::empty().push(v as int) + spec_data_rest(input@, q3 as int).1);
        }
        values.push(v);
        cur = q3;
    }
    proof {
        assert(spec_data_rest(input@, cur as int).1 =~= Seq::<int>::empty());
        assert(values@.map_values(|v: i64| v as int) =~= seq![first as int] + spec_data_rest(
            input@,
            p1 as int,
        ).1);
    }
    Some((cur, values))
}

/// The optional legend mask (with its trailing whitespace) and the
/// mandatory color value behind it.
pub open spec fn spec_legend_and_color(input: Seq<u8>, pos: int) -> Option<(
    int,
    (Option<Legend>, Color),
)> {
    let lead = match spec_legend_b(input, pos) {
        Some((pl, lg)) => match spec_ws1(input, pl) {
            Some(pw) => Some((pw, lg)),
            None => None,
        },
        None => None,
    };
    match lead {
        Some((pw, lg)) => match spec_color_value(input, pw) {
            Some((end, c)) => Some((end, (Some(lg), c))),
            None => None,
        },
        None => match spec_color_value(input, pos) {
            Some((end, c)) => Some((end, (None, c))),
            None => None,
        },
    }
}

/// Reads the legend-and-color tail, exactly as [`spec_legend_and_color`]
/// says.
pub fn legend_and_color_parser(input: &[u8], pos: usize) -> (r: Option<(
    usize,
    (Option<Legend>, Color),
)>)
    requires
        pos <= input@.len(),
    ensures
        r is Some <==> spec_legend_and_color(input@, pos as int) is Some,
        r matches Some(p) ==> ({
            let q = spec_legend_and_color(input@, pos as int)->0;
            p.0 as int == q.0 && p.1 == q.1 && p.0 <= input@.len()
        }),
{
    let lead: Option<(usize, Legend)> = match legend_parser(input, pos) {
        Some((pl, lg)) => match ws1_at(input, pl) {
            Some(pw) => Some((pw, lg)),
            None => None,
        },
        None => None,
    };
    match lead {
        Some((pw, lg)) => match color_value_parser(input, pw) {
            Some((end, c)) => Some((end, (Some(lg), c))),
            None => None,
        },
        None => match color_value_parser(input, pos) {
            Some((end, c)) => Some((end, (None, c))),
            None => None,
        },
    }
}

pub open spec fn spec_ws_decimal(input: Seq<u8>, pos: int) -> Option<(int, int)> {
    match spec_ws1(input, pos) {
        None => None,
        Some(p) => spec_decimal(input, p),
    }
}

/// A whole signal declaration: the quoted name, then an optional chain of
/// numerals (`min`, `max`, `ySize`, `yBase`) and an optional legend and
/// color, each layer present only when everything before it is.
pub open spec fn spec_signal_declaration(input: Seq<u8>, pos: int) -> Option<(
    int,
    DebugInstructionV,
)> {
    match spec_string(input, pos) {
        None => None,
        Some((p0, name)) => match spec_ws_decimal(input, p0) {
            None => Some(
                (
                    p0,
                    DebugInstructionV::SignalDefinition {
                        name,
                        min: None,
                        max: None,
                        y_size: None,
                        y_base: None,
                        legend: None,
                        color: None,
                    },
                ),
            ),
            Some((pa, minv)) => match spec_ws_decimal(input, pa) {
                None => Some(
                    (
                        pa,
                        DebugInstructionV::SignalDefinition {
                            name,
                            min: Some(minv),
                            max: None,
                            y_size: None,
                            y_base: None,
                            legend: None,
                            color: None,
                        },
                    ),
                ),
                Some((pb, maxv)) => match spec_ws_decimal(input, pb) {
                    None => Some(
                        (
                            pb,
                            DebugInstructionV::SignalDefinition {
                                name,
                                min: Some(minv),
                                max: Some(maxv),
                                y_size: None,
                                y_base: None,
                                legend: None,
                                color: None,
                            },
                        ),
                    ),
                    Some((pc, ys)) => match spec_ws_decimal(input, pc) {
                        None => Some(
                            (
                                pc,
                                DebugInstructionV::SignalDefinition {
                                    name,
                                    min: Some(minv),
                                    max: Some(maxv),
                                    y_size: Some(ys),
                                    y_base: None,
                                    legend: None,
                                    color: None,
                                },
                            ),
                        ),
                        Some((pd, yb)) => {
                            let tail = match spec_ws1(input, pd) {
                                None => None,
                                Some(pe) => spec_legend_and_color(input, pe),
                            };
                            match tail {
                                None => Some(
                                    (
                                        pd,
                                        DebugInstructionV::SignalDefinition {
                                            name,
                                            min: Some(minv),
                                            max: Some(maxv),
                                            y_size: Some(ys),
                                            y_base: Some(yb),
                                            legend: None,
                                            color: None,
                                        },
                                    ),
                                ),
                                Some((end, (lg, c))) => Some(
                                    (
                                        end,
                                        DebugInstructionV::SignalDefinition {
                                            name,
                                            min: Some(minv),
                                            max: Some(maxv),
                                            y_size: Some(ys),
                                            y_base: Some(yb),
                                            legend: lg,
                                            color: Some(c),
                                        },
                                    ),
                                ),
                            }
                        },
                    },
                },
            },
        },
    }
}

fn ws_decimal(input: &[u8], pos: usize) -> (r: Option<(usize, i64)>)
    requires
        pos <= input@.len(),
    ensures
        r is Some <==> spec_ws_decimal(input@, pos as int) is Some,
        r matches Some(p) ==> Some((p.0 as int, p.1 as int)) == spec_ws_decimal(
            input@,
            pos as int,
        ) && p.0 <= input@.len(),
{
    match ws1_at(input, pos) {
        Some(p) => decimal(input, p),
        None => None,
    }
}

/// Reads a signal declaration, exactly as [`spec_signal_declaration`]
/// says.
pub fn scope_signal_declaration_parser(input: &[u8], pos: usize) -> (r: Option<(
    usize,
    DebugInstruction,
)>)
    requires
        pos <= input@.len(),
    ensures
        r is Some <==> spec_signal_declaration(input@, pos as int) is Some,
        r matches Some(p) ==> ({
            let q = spec_signal_declaration(input@, pos as int)->0;
            p.0 as int == q.0 && p.1@ == q.1 && p.0 <= input@.len()
        }),
{
    let (p0, name) = match string_parser(input, pos) {
        Some((e, DebugInstructionAtom::String { value })) => (e, value),
        _ => {
            return None;
        },
    };
    let mut min: Option<i64> = None;
    let mut max: Option<i64> = None;
    let mut y_size: Option<i64> = None;
    let mut y_base: Option<i64> = None;
    let mut legend: Option<Legend> = None;
    let mut color: Option<Color> = None;
    let mut end = p0;
    match ws_decimal(input, p0) {
        None => {},
        Some((pa, minv)) => {
            min = Some(minv);
            end = pa;
            match ws_decimal(input, pa) {
                None => {},
                Some((pb, maxv)) => {
                    max = Some(maxv);
                    end = pb;
                    match ws_decimal(input, pb) {
                        None => {},
                        Some((pc, ys)) => {
                            y_size = Some(ys);
                            end = pc;
                            match ws_decimal(input, pc) {
                                None => {},
                                Some((pd, yb)) => {
                                    y_base = Some(yb);
                                    end = pd;
                                    let tail: Option<(usize, (Option<Legend>, Color))> =
                                        match ws1_at(input, pd) {
                                        Some(pe) => legend_and_color_parser(input, pe),
                                        None => None,
                                    };
                                    match tail {
                                        None => {},
                                        Some((pf, (lg, c))) => {
                                            legend = lg;
                                            color = Some(c);
                                            end = pf;
                                        },
                                    }
                                },
                            }
                        },
                    }
                },
            }
        },
    }
    Some(
        (
            end,
            DebugInstruction::SignalDefinition { name, min, max, y_size, y_base, legend, color },
        ),
    )
}

} // verus!
