//! Validating the captured output as UTF-8.
//!
//! The output bytes must decode as text before any line is looked at.  The
//! checker below walks the bytes one encoded scalar at a time and either
//! confirms that the whole output is valid UTF-8 (in the sense of
//! [`vstd::utf8::valid_utf8`]) or reports the length of its longest valid
//! prefix.  Building the final `String` out of bytes already proved valid is
//! the one step entrusted to the standard library.

use vstd::prelude::*;
use vstd::utf8::{
    decode_first_codepoint, decode_utf8, is_char_boundary_iff_not_is_continuation_byte,
    length_of_first_scalar, partial_valid_partial_invalid_utf8, partial_valid_utf8,
    partial_valid_utf8_extend, pop_first_scalar, valid_first_scalar, valid_utf8, valid_utf8_split,
};
use crate::scan::{
    host_prefix, host_span_lines, host_start_by_lines, lemma_host_start_lines_props,
    lemma_line_end_from,
};

verus! {

/// True when `p` is where decoding the output breaks down: everything before
/// `p` is valid UTF-8 and no encoded scalar starts at `p`.
pub open spec fn utf8_break_at(s: Seq<u8>, p: int) -> bool {
    &&& 0 <= p <= s.len()
    &&& valid_utf8(s.subrange(0, p))
    &&& !valid_first_scalar(s.subrange(p, s.len() as int))
}

/// Decides whether the output is valid UTF-8.  Returns `None` when it is,
/// and otherwise the length of the longest valid prefix, which is where the
/// first malformed scalar encoding starts.
pub fn utf8_check(out: &[u8]) -> (r: Option<usize>)
    ensures
        r is None <==> valid_utf8(out@),
        r matches Some(p) ==> utf8_break_at(out@, p as int),
{
    let n = out.len();
    let mut i: usize = 0;
    while i < n
        invariant
            i <= n,
            n == out@.len(),
            partial_valid_utf8(out@, i as int),
        decreases n - i,
    {
        let ghost tail = out@.subrange(i as int, n as int);
        let b0 = out[i];
        proof {
            assert(tail[0] == out@[i as int]);
        }
        let step: usize;
        if b0 < 0x80 {
            // A one-byte scalar.
            proof {
                assert((b0 & 0x7f) == b0) by (bit_vector)
                    requires
                        b0 < 0x80,
                ;
                assert(valid_first_scalar(tail));
                assert(length_of_first_scalar(tail) == 1);
            }
            step = 1;
        } else if b0 < 0xc0 {
            // A continuation byte where a leading byte is due.
            proof {
                lemma_invalid_here(out@, i as int);
            }
            return Some(i);
        } else if b0 < 0xe0 {
            // A two-byte scalar: one continuation byte, value at least 0x80.
            if n - i < 2 || !(0x80 <= out[i + 1] && out[i + 1] < 0xc0) {
                proof {
                    if n - i >= 2 {
                        assert(tail[1] == out@[i + 1]);
                    }
                    lemma_invalid_here(out@, i as int);
                }
                return Some(i);
            }
            let b1 = out[i + 1];
            let cp: u32 = (((b0 & 0x1f) as u32) << 6) | ((b1 & 0x3f) as u32);
            proof {
                assert(tail[1] == out@[i + 1]);
                assert(cp == decode_first_codepoint(tail));
            }
            if cp < 0x80 || (0xd800 <= cp && cp <= 0xdfff) {
                proof {
                    lemma_invalid_here(out@, i as int);
                }
                return Some(i);
            }
            proof {
                assert(valid_first_scalar(tail));
                assert(length_of_first_scalar(tail) == 2);
            }
            step = 2;
        } else if b0 < 0xf0 {
            // A three-byte scalar: two continuation bytes, value at least
            // 0x800 and outside the surrogate range.
            if n - i < 3 || !(0x80 <= out[i + 1] && out[i + 1] < 0xc0) || !(0x80 <= out[i + 2]
                && out[i + 2] < 0xc0) {
                proof {
                    if n - i >= 2 {
                        assert(tail[1] == out@[i + 1]);
                    }
                    if n - i >= 3 {
                        assert(tail[2] == out@[i + 2]);
                    }
                    lemma_invalid_here(out@, i as int);
                }
                return Some(i);
            }
            let b1 = out[i + 1];
            let b2 = out[i + 2];
            let cp: u32 = (((b0 & 0x0f) as u32) << 12) | (((b1 & 0x3f) as u32) << 6) | ((b2
                & 0x3f) as u32);
            proof {
                assert(tail[1] == out@[i + 1]);
                assert(tail[2] == out@[i + 2]);
                assert(cp == decode_first_codepoint(tail));
            }
            if cp < 0x800 || (0xd800 <= cp && cp <= 0xdfff) {
                proof {
                    lemma_invalid_here(out@, i as int);
                }
                return Some(i);
            }
            proof {
                assert(valid_first_scalar(tail));
                assert(length_of_first_scalar(tail) == 3);
            }
            step = 3;
        } else if b0 < 0xf8 {
            // A four-byte scalar: three continuation bytes, value between
            // 0x10000 and 0x10ffff.
            if n - i < 4 || !(0x80 <= out[i + 1] && out[i + 1] < 0xc0) || !(0x80 <= out[i + 2]
                && out[i + 2] < 0xc0) || !(0x80 <= out[i + 3] && out[i + 3] < 0xc0) {
                proof {
                    if n - i >= 2 {
                        assert(tail[1] == out@[i + 1]);
                    }
                    if n - i >= 3 {
                        assert(tail[2] == out@[i + 2]);
                    }
                    if n - i >= 4 {
                        assert(tail[3] == out@[i + 3]);
                    }
                    lemma_invalid_here(out@, i as int);
                }
                return Some(i);
            }
            let b1 = out[i + 1];
            let b2 = out[i + 2];
            let b3 = out[i + 3];
            let cp: u32 = (((b0 & 0x07) as u32) << 18) | (((b1 & 0x3f) as u32) << 12) | (((b2
                & 0x3f) as u32) << 6) | ((b3 & 0x3f) as u32);
            proof {
                assert(tail[1] == out@[i + 1]);
                assert(tail[2] == out@[i + 2]);
                assert(tail[3] == out@[i + 3]);
                assert(cp == decode_first_codepoint(tail));
            }
            if cp < 0x10000 || cp > 0x10ffff {
                proof {
                    lemma_invalid_here(out@, i as int);
                }
                return Some(i);
            }
            proof {
                assert(valid_first_scalar(tail));
                assert(length_of_first_scalar(tail) == 4);
            }
            step = 4;
        } else {
            // 0xf8 and above match no leading-byte pattern.
            proof {
                lemma_invalid_here(out@, i as int);
            }
            return Some(i);
        }
        proof {
            partial_valid_utf8_extend(out@, i as int);
        }
        i = i + step;
    }
    proof {
        assert(out@.subrange(0, n as int) =~= out@);
    }
    None
}

/// When no valid scalar encoding starts at `i`, the whole output is not
/// valid UTF-8 and `i` is where decoding breaks down.
proof fn lemma_invalid_here(s: Seq<u8>, i: int)
    requires
        0 <= i < s.len(),
        partial_valid_utf8(s, i),
        !valid_first_scalar(s.subrange(i, s.len() as int)),
    ensures
        utf8_break_at(s, i),
        !valid_utf8(s),
{
    let tail = s.subrange(i, s.len() as int);
    assert(tail.len() > 0);
    assert(!valid_utf8(tail));
    partial_valid_partial_invalid_utf8(s, i);
}

/// Relies on `String::from_utf8`: it succeeds exactly on byte vectors that
/// are valid UTF-8 and returns the string those bytes encode.
#[verifier::external_body]
pub(crate) fn string_from_utf8(v: Vec<u8>) -> (r: Option<String>)
    ensures
        r is Some <==> valid_utf8(v@),
        r matches Some(s) ==> s@ == decode_utf8(v@),
{
    String::from_utf8(v).ok()
}

/// In valid UTF-8 output, the bytes of the host span — between the space of
/// `host: ` and the next line feed — are themselves valid UTF-8, because
/// both ends of the span sit on character boundaries.
pub proof fn lemma_host_span_valid_utf8(s: Seq<u8>)
    requires
        valid_utf8(s),
        host_span_lines(s) is Some,
    ensures
        valid_utf8(
            s.subrange(host_span_lines(s)->Some_0.0, host_span_lines(s)->Some_0.1),
        ),
{
    let p = host_start_by_lines(s, 0)->Some_0;
    lemma_host_start_lines_props(s, 0);
    let a = p + 6;
    let b = host_span_lines(s)->Some_0.1;
    lemma_line_end_from(s, a);
    assert(s[a - 1] == host_prefix()[5]);
    assert(host_prefix()[5] == 32);
    // The space before the span is a one-byte scalar, so the span's start is
    // a character boundary.
    is_char_boundary_iff_not_is_continuation_byte(s, a - 1);
    valid_utf8_split(s, a - 1);
    let t = s.subrange(a - 1, s.len() as int);
    assert(t[0] == 32);
    assert((32u8 & 0x7f) == 32u8) by (bit_vector);
    assert(valid_first_scalar(t));
    assert(length_of_first_scalar(t) == 1);
    let u = s.subrange(a, s.len() as int);
    assert(pop_first_scalar(t) =~= u);
    assert(valid_utf8(u));
    if b < s.len() {
        // The line feed that ends the span is a one-byte scalar too, so the
        // span's end is a character boundary of the remainder.
        assert(u[b - a] == s[b]);
        assert(s[b] == 10);
        is_char_boundary_iff_not_is_continuation_byte(u, b - a);
        valid_utf8_split(u, b - a);
        assert(u.subrange(0, b - a) =~= s.subrange(a, b));
    } else {
        assert(u =~= s.subrange(a, b));
    }
}

} // verus!
