//! Byte-to-line framing over an unreliable streaming transport.
//!
//! Bytes accumulate until the last two are CR LF; the bytes before the
//! terminator are then decoded as UTF-8 and, on success, emitted as one
//! line; in all cases the buffer restarts empty.  No line is emitted
//! without a terminator, terminators are never part of a line, invalid
//! UTF-8 between terminators is discarded silently, and back-to-back
//! terminators make a valid empty line.
use vstd::prelude::*;
use vstd::utf8::{decode_utf8, valid_utf8};

verus! {

/// The last two bytes are the CR LF terminator.
pub open spec fn ends_crlf(s: Seq<u8>) -> bool {
    s.len() >= 2 && s[s.len() - 2] == 13 && s[s.len() - 1] == 10
}

/// The buffer after one byte: cleared when the byte completes a
/// terminator, extended otherwise.
pub open spec fn buf_after(buf: Seq<u8>, b: u8) -> Seq<u8> {
    if ends_crlf(buf.push(b)) {
        Seq::empty()
    } else {
        buf.push(b)
    }
}

/// The line one byte completes, if any: the bytes before the terminator,
/// decoded, provided they are valid UTF-8.
pub open spec fn emit_of(buf: Seq<u8>, b: u8) -> Option<Seq<char>> {
    let p = buf.push(b);
    if ends_crlf(p) && valid_utf8(p.take(p.len() - 2)) {
        Some(decode_utf8(p.take(p.len() - 2)))
    } else {
        None
    }
}

/// All lines a byte sequence completes, in order, from the given buffer.
pub open spec fn spec_feed_lines(buf: Seq<u8>, input: Seq<u8>) -> Seq<Seq<char>>
    decreases input.len(),
{
    if input.len() == 0 {
        Seq::empty()
    } else {
        let rest = spec_feed_lines(buf_after(buf, input[0]), input.skip(1));
        match emit_of(buf, input[0]) {
            Some(l) => seq![l] + rest,
            None => rest,
        }
    }
}

/// The buffer left after a byte sequence.
pub open spec fn spec_feed_buf(buf: Seq<u8>, input: Seq<u8>) -> Seq<u8>
    decreases input.len(),
{
    if input.len() == 0 {
        buf
    } else {
        spec_feed_buf(buf_after(buf, input[0]), input.skip(1))
    }
}

/// How often CR is immediately followed by LF.
pub open spec fn crlf_count(s: Seq<u8>) -> int
    decreases s.len(),
{
    if s.len() < 2 {
        0
    } else {
        (if s[0] == 13 && s[1] == 10 {
            1int
        } else {
            0int
        }) + crlf_count(s.skip(1))
    }
}

proof fn lemma_crlf_count_nonneg(s: Seq<u8>)
    ensures
        crlf_count(s) >= 0,
    decreases s.len(),
{
    if s.len() >= 2 {
        lemma_crlf_count_nonneg(s.skip(1));
    }
}

/// The byte a buffer can contribute to the next terminator: its last.
pub open spec fn boundary(buf: Seq<u8>) -> Seq<u8> {
    if buf.len() == 0 {
        Seq::empty()
    } else {
        seq![buf.last()]
    }
}

proof fn lemma_feed_lines_bound(buf: Seq<u8>, input: Seq<u8>)
    ensures
        spec_feed_lines(buf, input).len() <= crlf_count(boundary(buf) + input),
    decreases input.len(),
{
    if input.len() == 0 {
        lemma_crlf_count_nonneg(boundary(buf) + input);
    } else {
        let b = input[0];
        let rest = input.skip(1);
        let p = buf.push(b);
        if ends_crlf(p) {
            // the pair CR LF sits exactly at the boundary
            assert(buf.len() >= 1 && buf.last() == 13 && b == 10);
            lemma_feed_lines_bound(Seq::empty(), rest);
            assert(buf_after(buf, b) =~= Seq::<u8>::empty());
            assert(boundary(Seq::<u8>::empty()) + rest =~= rest);
            let w = boundary(buf) + input;
            assert(w[0] == 13 && w[1] == 10);
            assert(w.skip(1) =~= input);
            assert(crlf_count(w) == 1 + crlf_count(input));
            assert(crlf_count(input) >= crlf_count(rest)) by {
                if input.len() >= 2 {
                    lemma_crlf_count_nonneg(rest);
                    assert(input.skip(1) =~= rest);
                } else {
                    lemma_crlf_count_nonneg(input);
                    lemma_crlf_count_nonneg(rest);
                }
            }
        } else {
            lemma_feed_lines_bound(p, rest);
            assert(buf_after(buf, b) =~= p);
            assert(boundary(p) =~= seq![b]);
            let w = boundary(buf) + input;
            if buf.len() == 0 {
                assert(w =~= input);
                assert(boundary(p) + rest =~= input);
            } else {
                assert(w.skip(1) =~= input);
                assert(input =~= boundary(p) + rest);
                lemma_crlf_count_nonneg(input);
                assert(crlf_count(w) >= crlf_count(input));
            }
        }
    }
}

/// Framing law: from a fresh framer, a byte sequence with `n` CR LF
/// occurrences yields at most `n` lines.  (Which lines, and that each is
/// exactly the decoded bytes strictly between terminators with invalid
/// UTF-8 skipped uncounted, is what [`spec_feed_lines`] itself states.)
pub proof fn lemma_frame_count(input: Seq<u8>)
    ensures
        spec_feed_lines(Seq::<u8>::empty(), input).len() <= crlf_count(input),
{
    lemma_feed_lines_bound(Seq::<u8>::empty(), input);
    assert(boundary(Seq::<u8>::empty()) + input =~= input);
}

/// The framing state: the bytes accumulated since the last terminator.
pub struct LineProtocol {
    bytes: Vec<u8>,
}

impl View for LineProtocol {
    type V = Seq<u8>;

    closed spec fn view(&self) -> Seq<u8> {
        self.bytes@
    }
}

impl LineProtocol {
    /// A fresh framer with an empty buffer.
    pub fn new() -> (r: LineProtocol)
        ensures
            r@ == Seq::<u8>::empty(),
    {
        let r = LineProtocol { bytes: Vec::new() };
        proof {
            assert(r@ =~= Seq::<u8>::empty());
        }
        r
    }

    /// Consumes a chunk of bytes and returns the lines it completes, in
    /// order, exactly as [`spec_feed_lines`] says; the buffer afterwards
    /// is [`spec_feed_buf`].
    #[verifier::loop_isolation(false)]
    pub fn feed(&mut self, buffer: &[u8]) -> (lines: Vec<String>)
        ensures
            lines@.map_values(|l: String| l@) == spec_feed_lines(old(self)@, buffer@),
            final(self)@ == spec_feed_buf(old(self)@, buffer@),
    {
        let mut lines: Vec<String> = Vec::new();
        let n = buffer.len();
        let mut i: usize = 0;
        proof {
            assert(buffer@.skip(0) =~= buffer@);
            assert(lines@.map_values(|l: String| l@) =~= Seq::<Seq<char>>::empty());
        }
        while i < n
            invariant
                i <= n,
                n == buffer@.len(),
                spec_feed_lines(old(self)@, buffer@) =~= lines@.map_values(|l: String| l@)
                    + spec_feed_lines(self@, buffer@.skip(i as int)),
                spec_feed_buf(old(self)@, buffer@) == spec_feed_buf(
                    self@,
                    buffer@.skip(i as int),
                ),
            decreases n - i,
        {
            let ghost pre = self@;
            let b = *vstd::slice::slice_index_get(buffer, i);
            proof {
                assert(buffer@.skip(i as int)[0] == b);
                assert(buffer@.skip(i as int).skip(1) =~= buffer@.skip(i + 1));
            }
            self.bytes.push(b);
            let l = self.bytes.len();
            if l >= 2 && self.bytes[l - 2] == 13 && self.bytes[l - 1] == 10 {
                proof {
                    assert(ends_crlf(pre.push(b)));
                }
                let _lf = self.bytes.pop();
                let _cr = self.bytes.pop();
                proof {
                    assert(self.bytes@ =~= pre.push(b).take(pre.push(b).len() - 2));
                }
                match crate::strutil::utf8_to_string(&self.bytes) {
                    Some(line) => {
                        let ghost lv = lines@.map_values(|l: String| l@);
                        lines.push(line);
                        proof {
                            assert(lines@.map_values(|l: String| l@) =~= lv.push(line@));
                            assert(seq![line@] + spec_feed_lines(
                                Seq::<u8>::empty(),
                                buffer@.skip(i + 1),
                            ) =~= Seq::<Seq<char>>::empty().push(line@) + spec_feed_lines(
                                Seq::<u8>::empty(),
                                buffer@.skip(i + 1),
                            ));
                        }
                    },
                    None => {
                    },
                }
                self.bytes.clear();
                proof {
                    assert(self@ =~= buf_after(pre, b));
                }
            } else {
                proof {
                    assert(!ends_crlf(pre.push(b)));
                    assert(self@ =~= buf_after(pre, b));
                }
            }
            i += 1;
        }
        proof {
            assert(buffer@.skip(n as int) =~= Seq::<u8>::empty());
            assert(lines@.map_values(|l: String| l@) + Seq::<Seq<char>>::empty()
                =~= lines@.map_values(|l: String| l@));
        }
        lines
    }
}

} // verus!
