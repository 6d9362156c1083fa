//! Decoding of the escapes in string literals.
//!
//! Between single quotes only `\\` and `\'` are escapes; any other backslash
//! stands for itself.  Between double quotes a backslash always starts an
//! escape: `\n`, `\t`, `\r`, up to three octal digits, `\x` with up to two
//! hexadecimal digits, and otherwise the byte behind the backslash itself
//! (so `\"` and `\\`).  A backslash at the very end stands for itself.

use vstd::prelude::*;

verus! {

/// The value of a hexadecimal digit.
pub open spec fn hex_value(c: u8) -> Option<int> {
    if 48 <= c <= 57 {
        Some(c - 48)
    } else if 97 <= c <= 102 {
        Some(c - 87)
    } else if 65 <= c <= 70 {
        Some(c - 55)
    } else {
        None
    }
}

/// An octal digit.
pub open spec fn is_octal(c: u8) -> bool {
    48 <= c <= 55
}

/// The bytes that the escape with its backslash at `i` stands for, and the
/// index behind the escape.  There is a byte behind the backslash.
pub open spec fn escape_at(s: Seq<u8>, i: int, single: bool) -> (Seq<u8>, int) {
    let c = s[i + 1];
    if single {
        if c == 92 || c == 39 {
            (seq![c], i + 2)
        } else {
            (seq![92u8, c], i + 2)
        }
    } else if c == 110 {
        (seq![10u8], i + 2)
    } else if c == 116 {
        (seq![9u8], i + 2)
    } else if c == 114 {
        (seq![13u8], i + 2)
    } else if c == 120 && i + 2 < s.len() && hex_value(s[i + 2]) is Some {
        let h1 = hex_value(s[i + 2])->0;
        if i + 3 < s.len() && hex_value(s[i + 3]) is Some {
            (seq![(h1 * 16 + hex_value(s[i + 3])->0) as u8], i + 4)
        } else {
            (seq![h1 as u8], i + 3)
        }
    } else if is_octal(c) {
        let v1 = c - 48;
        if i + 2 < s.len() && is_octal(s[i + 2]) {
            let v2 = v1 * 8 + (s[i + 2] - 48);
            if i + 3 < s.len() && is_octal(s[i + 3]) {
                (seq![((v2 * 8 + (s[i + 3] - 48)) % 256) as u8], i + 4)
            } else {
                (seq![v2 as u8], i + 3)
            }
        } else {
            (seq![v1 as u8], i + 2)
        }
    } else {
        (seq![c], i + 2)
    }
}

/// The decoded bytes of `s` from `i` on.
pub open spec fn unescaped_from(s: Seq<u8>, i: int, single: bool) -> Seq<u8>
    decreases s.len() - i,
{
    if i < 0 || i >= s.len() {
        Seq::empty()
    } else if s[i] == 92 && i + 1 < s.len() {
        let (b, j) = escape_at(s, i, single);
        if i < j <= s.len() {
            b + unescaped_from(s, j, single)
        } else {
            b
        }
    } else {
        seq![s[i]] + unescaped_from(s, i + 1, single)
    }
}

/// The contents of a string literal, decoded.
pub open spec fn unescaped(s: Seq<u8>, single: bool) -> Seq<u8> {
    unescaped_from(s, 0, single)
}

/// The value of a hexadecimal digit.
fn hex_digit(c: u8) -> (r: Option<u8>)
    ensures
        r is Some == hex_value(c) is Some,
        r matches Some(v) ==> hex_value(c) == Some(v as int) && v < 16,
{
    if 48 <= c && c <= 57 {
        Some(c - 48)
    } else if 97 <= c && c <= 102 {
        Some(c - 87)
    } else if 65 <= c && c <= 70 {
        Some(c - 55)
    } else {
        None
    }
}

/// Decodes the escape with its backslash at `i` onto `out`; returns the index
/// behind the escape.
fn read_escape(s: &[u8], i: usize, single: bool, out: &mut Vec<u8>) -> (j: usize)
    requires
        i + 1 < s.len(),
    ensures
        final(out)@ == old(out)@ + escape_at(s@, i as int, single).0,
        j == escape_at(s@, i as int, single).1,
        i < j <= s.len(),
{
    let c = s[i + 1];
    if single {
        if c == 92 || c == 39 {
            out.push(c);
            proof {
                assert(out@ =~= old(out)@ + seq![c]);
            }
        } else {
            out.push(92u8);
            out.push(c);
            proof {
                assert(out@ =~= old(out)@ + seq![92u8, c]);
            }
        }
        return i + 2;
    }
    if c == 110 || c == 116 || c == 114 {
        let b: u8 = if c == 110 {
            10
        } else if c == 116 {
            9
        } else {
            13
        };
        out.push(b);
        proof {
            assert(out@ =~= old(out)@ + seq![b]);
        }
        return i + 2;
    }
    if c == 120 && i + 2 < s.len() {
        match hex_digit(s[i + 2]) {
            Some(h1) => {
                if i + 3 < s.len() {
                    match hex_digit(s[i + 3]) {
                        Some(h2) => {
                            let b: u8 = h1 * 16 + h2;
                            out.push(b);
                            proof {
                                assert(out@ =~= old(out)@ + seq![b]);
                            }
                            return i + 4;
                        },
                        None => {},
                    }
                }
                out.push(h1);
                proof {
                    assert(out@ =~= old(out)@ + seq![h1]);
                }
                return i + 3;
            },
            None => {},
        }
    }
    if 48 <= c && c <= 55 {
        let v1: u16 = (c - 48) as u16;
        if i + 2 < s.len() && 48 <= s[i + 2] && s[i + 2] <= 55 {
            let v2: u16 = v1 * 8 + (s[i + 2] - 48) as u16;
            if i + 3 < s.len() && 48 <= s[i + 3] && s[i + 3] <= 55 {
                let v3: u16 = (v2 * 8 + (s[i + 3] - 48) as u16) % 256;
                let b: u8 = v3 as u8;
                out.push(b);
                proof {
                    assert(out@ =~= old(out)@ + seq![b]);
                }
                return i + 4;
            }
            let b: u8 = v2 as u8;
            out.push(b);
            proof {
                assert(out@ =~= old(out)@ + seq![b]);
            }
            return i + 3;
        }
        let b: u8 = v1 as u8;
        out.push(b);
        proof {
            assert(out@ =~= old(out)@ + seq![b]);
        }
        return i + 2;
    }
    out.push(c);
    proof {
        assert(out@ =~= old(out)@ + seq![c]);
    }
    i + 2
}

/// Decodes the contents of a string literal; `single` says whether it stood
/// between single quotes.
pub fn unescape(s: &[u8], single: bool) -> (r: Vec<u8>)
    ensures
        r@ == unescaped(s@, single),
{
    let mut out: Vec<u8> = Vec::new();
    let mut i: usize = 0;
    proof {
        assert(out@ + unescaped_from(s@, 0, single) =~= unescaped(s@, single));
    }
    while i < s.len()
        invariant
            i <= s.len(),
            out@ + unescaped_from(s@, i as int, single) == unescaped(s@, single),
        decreases s.len() - i,
    {
        let ghost before = out@;
        if s[i] == 92 && i + 1 < s.len() {
            let j = read_escape(s, i, single, &mut out);
            proof {
                let b = escape_at(s@, i as int, single).0;
                assert((before + b) + unescaped_from(s@, j as int, single) =~= before + (b
                    + unescaped_from(s@, j as int, single)));
            }
            i = j;
        } else {
            out.push(s[i]);
            proof {
                assert(before.push(s@[i as int]) + unescaped_from(s@, i + 1, single) =~= before
                    + (seq![s@[i as int]] + unescaped_from(s@, i + 1, single)));
            }
            i += 1;
        }
    }
    proof {
        assert(out@ + Seq::<u8>::empty() =~= out@);
    }
    out
}

} // verus!
