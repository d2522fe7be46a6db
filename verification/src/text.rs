//! How names and packets read as text.
use vstd::prelude::*;
use vstd::string::StringExecFns;
use vstd::string::StringSliceAdditionalSpecFns;
use vstd::utf8::{decode_utf8, encode_utf8_decode_utf8, valid_utf8};

verus! {

/// The lower-case hexadecimal digit of `n` (taken modulo 16).
pub open spec fn hex_digit(n: u8) -> char {
    let d = n % 16;
    if d == 0 {
        '0'
    } else if d == 1 {
        '1'
    } else if d == 2 {
        '2'
    } else if d == 3 {
        '3'
    } else if d == 4 {
        '4'
    } else if d == 5 {
        '5'
    } else if d == 6 {
        '6'
    } else if d == 7 {
        '7'
    } else if d == 8 {
        '8'
    } else if d == 9 {
        '9'
    } else if d == 10 {
        'a'
    } else if d == 11 {
        'b'
    } else if d == 12 {
        'c'
    } else if d == 13 {
        'd'
    } else if d == 14 {
        'e'
    } else {
        'f'
    }
}

/// Each byte as two lower-case hexadecimal digits, high half first.
pub open spec fn hex_text(v: Seq<u8>) -> Seq<char>
    decreases v.len(),
{
    if v.len() == 0 {
        seq![]
    } else {
        hex_text(v.drop_last()) + seq![hex_digit(v.last() / 16), hex_digit(v.last() % 16)]
    }
}

/// A name component as text: the component itself where its bytes are UTF-8,
/// its bytes in hexadecimal otherwise.
pub open spec fn component_text(v: Seq<u8>) -> Seq<char> {
    if valid_utf8(v) {
        decode_utf8(v)
    } else {
        hex_text(v)
    }
}

/// The components of a name as text, each after a '/'.
pub open spec fn components_text(name: Seq<Seq<u8>>) -> Seq<char>
    decreases name.len(),
{
    if name.len() == 0 {
        seq![]
    } else {
        components_text(name.drop_last()) + seq!['/'] + component_text(name.last())
    }
}

/// A name as text: "/" for the empty name, else each component after a '/'.
pub open spec fn name_text(name: Seq<Seq<u8>>) -> Seq<char> {
    if name.len() == 0 {
        seq!['/']
    } else {
        components_text(name)
    }
}

/// `core::str::from_utf8`. Claimed: it succeeds exactly on bytes that are valid
/// UTF-8, and the `str` it gives back has exactly those bytes.
#[verifier::external_body]
fn str_from_utf8(bytes: &[u8]) -> (r: Option<&str>)
    ensures
        r is Some <==> valid_utf8(bytes@),
        r matches Some(s) ==> s.spec_bytes() == bytes@,
{
    core::str::from_utf8(bytes).ok()
}

/// The text of one hexadecimal digit.
fn hex_digit_str(n: u8) -> (r: &'static str)
    requires
        n < 16,
    ensures
        r@ == seq![hex_digit(n)],
{
    match n {
        0 => {
            proof {
                reveal_strlit("0");
            }
            "0"
        },
        1 => {
            proof {
                reveal_strlit("1");
            }
            "1"
        },
        2 => {
            proof {
                reveal_strlit("2");
            }
            "2"
        },
        3 => {
            proof {
                reveal_strlit("3");
            }
            "3"
        },
        4 => {
            proof {
                reveal_strlit("4");
            }
            "4"
        },
        5 => {
            proof {
                reveal_strlit("5");
            }
            "5"
        },
        6 => {
            proof {
                reveal_strlit("6");
            }
            "6"
        },
        7 => {
            proof {
                reveal_strlit("7");
            }
            "7"
        },
        8 => {
            proof {
                reveal_strlit("8");
            }
            "8"
        },
        9 => {
            proof {
                reveal_strlit("9");
            }
            "9"
        },
        10 => {
            proof {
                reveal_strlit("a");
            }
            "a"
        },
        11 => {
            proof {
                reveal_strlit("b");
            }
            "b"
        },
        12 => {
            proof {
                reveal_strlit("c");
            }
            "c"
        },
        13 => {
            proof {
                reveal_strlit("d");
            }
            "d"
        },
        14 => {
            proof {
                reveal_strlit("e");
            }
            "e"
        },
        _ => {
            proof {
                reveal_strlit("f");
            }
            "f"
        },
    }
}

/// Appends the text of the name component `v` to `out`.
pub(crate) fn push_component_text(out: &mut String, v: &[u8])
    ensures
        final(out)@ == old(out)@ + component_text(v@),
{
    match str_from_utf8(v) {
        Some(s) => {
            proof {
                encode_utf8_decode_utf8(s@);
            }
            out.append(s);
        },
        None => {
            let n = v.len();
            let mut i: usize = 0;
            while i < n
                invariant
                    0 <= i <= n,
                    n == v@.len(),
                    out@ == old(out)@ + hex_text(v@.subrange(0, i as int)),
                decreases n - i,
            {
                let b = v[i];
                out.append(hex_digit_str(b / 16));
                out.append(hex_digit_str(b % 16));
                proof {
                    let pre = v@.subrange(0, i as int);
                    let next = v@.subrange(0, i + 1);
                    assert(next.drop_last() =~= pre);
                    assert(next.last() == b);
                }
                i = i + 1;
            }
            proof {
                assert(v@.subrange(0, n as int) =~= v@);
            }
        },
    }
}

} // verus!
