//! Opaque 128-bit identifiers for sessions and files, with their canonical
//! hyphenated hexadecimal text form, rendered and parsed by verified code.

use vstd::prelude::*;

verus! {

use vstd::string::StringSliceAdditionalSpecFns;

/// The lowercase hexadecimal digit character for a value in `0..16`.
pub open spec fn hex_digit_char(d: int) -> char {
    if d < 10 {
        (48 + d) as char
    } else {
        (87 + d) as char
    }
}

/// Whether `c` is a lowercase hexadecimal digit.
pub open spec fn is_hex_digit_char(c: char) -> bool {
    (48 <= c as int <= 57) || (97 <= c as int <= 102)
}

/// The numeric value of a lowercase hexadecimal digit character.
pub open spec fn hex_val(c: char) -> int {
    if c as int <= 57 {
        c as int - 48
    } else {
        c as int - 87
    }
}

/// Rendering a digit and reading it back are inverses.
pub proof fn lemma_hex_digit_char_val(d: int)
    requires
        0 <= d < 16,
    ensures
        is_hex_digit_char(hex_digit_char(d)),
        hex_val(hex_digit_char(d)) == d,
{
}

/// The `i`-th hexadecimal digit value (high digit first) of a byte sequence.
pub open spec fn nibble_of(bytes: Seq<u8>, i: int) -> int {
    if i % 2 == 0 {
        bytes[i / 2] as int / 16
    } else {
        bytes[i / 2] as int % 16
    }
}

/// The plain hexadecimal rendering of a byte sequence, two digits per byte.
pub open spec fn hex_chars(bytes: Seq<u8>) -> Seq<char> {
    Seq::new(bytes.len() * 2, |i: int| hex_digit_char(nibble_of(bytes, i)))
}

/// Whether position `p` of a canonical identifier string holds a hyphen.
pub open spec fn canon_pos_is_hyphen(p: int) -> bool {
    p == 8 || p == 13 || p == 18 || p == 23
}

/// Which hexadecimal digit (by index into the 32 digits) sits at position `p`
/// of the canonical form.
pub open spec fn canon_nib_index(p: int) -> int {
    p - (if p > 8 {
        1int
    } else {
        0int
    }) - (if p > 13 {
        1int
    } else {
        0int
    }) - (if p > 18 {
        1int
    } else {
        0int
    }) - (if p > 23 {
        1int
    } else {
        0int
    })
}

/// The canonical 36-character text form of a 16-byte identifier: 32 lowercase
/// hexadecimal digits with hyphens after digits 8, 12, 16 and 20.
pub open spec fn canonical_chars(bytes: Seq<u8>) -> Seq<char> {
    Seq::new(
        36,
        |p: int|
            if canon_pos_is_hyphen(p) {
                '-'
            } else {
                hex_digit_char(nibble_of(bytes, canon_nib_index(p)))
            },
    )
}

/// Whether a character sequence has the canonical identifier shape: 36
/// characters, hyphens exactly at positions 8, 13, 18 and 23, lowercase
/// hexadecimal digits everywhere else.
pub open spec fn is_canonical_uid(s: Seq<char>) -> bool {
    &&& s.len() == 36
    &&& forall|p: int|
        0 <= p < 36 ==> (if canon_pos_is_hyphen(p) {
            #[trigger] s[p] == '-'
        } else {
            is_hex_digit_char(s[p])
        })
}

/// A one-character string slice for a hexadecimal digit.
fn hex_digit_str(d: u8) -> (r: &'static str)
    requires
        d < 16,
    ensures
        r@ =~= seq![hex_digit_char(d as int)],
{
    proof {
        reveal_strlit("0");
        reveal_strlit("1");
        reveal_strlit("2");
        reveal_strlit("3");
        reveal_strlit("4");
        reveal_strlit("5");
        reveal_strlit("6");
        reveal_strlit("7");
        reveal_strlit("8");
        reveal_strlit("9");
        reveal_strlit("a");
        reveal_strlit("b");
        reveal_strlit("c");
        reveal_strlit("d");
        reveal_strlit("e");
        reveal_strlit("f");
    }
    if d == 0 {
        "0"
    } else if d == 1 {
        "1"
    } else if d == 2 {
        "2"
    } else if d == 3 {
        "3"
    } else if d == 4 {
        "4"
    } else if d == 5 {
        "5"
    } else if d == 6 {
        "6"
    } else if d == 7 {
        "7"
    } else if d == 8 {
        "8"
    } else if d == 9 {
        "9"
    } else if d == 10 {
        "a"
    } else if d == 11 {
        "b"
    } else if d == 12 {
        "c"
    } else if d == 13 {
        "d"
    } else if d == 14 {
        "e"
    } else {
        "f"
    }
}

/// Appends the two hexadecimal digits of one byte to `out`.
pub fn append_hex_byte(out: &mut String, b: u8)
    ensures
        final(out)@ == old(out)@ + seq![
            hex_digit_char(b as int / 16),
            hex_digit_char(b as int % 16),
        ],
{
    out.append(hex_digit_str(b / 16));
    out.append(hex_digit_str(b % 16));
    proof {
        assert(old(out)@ + seq![hex_digit_char(b as int / 16)] + seq![
            hex_digit_char(b as int % 16),
        ] =~= old(out)@ + seq![
            hex_digit_char(b as int / 16),
            hex_digit_char(b as int % 16),
        ]);
    }
}

/// An opaque 128-bit identifier, stored as its 16 big-endian bytes.
#[derive(Debug)]
pub struct Uid {
    /// The identifier's 16 bytes.
    pub bytes: Vec<u8>,
}

impl View for Uid {
    type V = Seq<u8>;

    open spec fn view(&self) -> Seq<u8> {
        self.bytes@
    }
}

impl Uid {
    /// The identifier's structural invariant: exactly 16 bytes.
    pub open spec fn wf(self) -> bool {
        self.bytes@.len() == 16
    }

    /// Wraps 16 given bytes as an identifier.
    pub fn from_bytes(bytes: Vec<u8>) -> (r: Uid)
        requires
            bytes@.len() == 16,
        ensures
            r.wf(),
            r@ == bytes@,
    {
        Uid { bytes }
    }

    /// Relies on `uuid::Uuid::new_v4`: a fresh random version-4 identifier of
    /// 16 bytes.  Nothing is promised of the value itself.
    #[verifier::external_body]
    pub fn new_v4() -> (r: Uid)
        ensures
            r.wf(),
    {
        Uid { bytes: uuid::Uuid::new_v4().as_bytes().to_vec() }
    }

    /// An independent copy of this identifier.
    pub fn dup(&self) -> (r: Uid)
        ensures
            r@ == self@,
    {
        Uid { bytes: self.bytes.clone() }
    }

    /// Whether two identifiers hold the same bytes.
    pub fn eq_uid(&self, other: &Uid) -> (r: bool)
        ensures
            r == (self@ == other@),
    {
        crate::text::bytes_eq(&self.bytes, &other.bytes)
    }

    /// The 32-digit hexadecimal form, without separators.
    pub fn simple_string(&self) -> (r: String)
        requires
            self.wf(),
        ensures
            r@ == hex_chars(self@),
    {
        let mut out = String::new();
        let mut i: usize = 0;
        while i < self.bytes.len()
            invariant
                self.wf(),
                i <= 16,
                out@ =~= hex_chars(self@.take(i as int)),
            decreases 16 - i,
        {
            append_hex_byte(&mut out, self.bytes[i]);
            proof {
                let pre = self@.take(i as int);
                let post = self@.take(i + 1);
                assert forall|j: int| 0 <= j < post.len() * 2 implies hex_digit_char(
                    nibble_of(post, j),
                ) == (hex_chars(pre) + seq![
                    hex_digit_char(self@[i as int] as int / 16),
                    hex_digit_char(self@[i as int] as int % 16),
                ])[j] by {
                    if j < 2 * i {
                        assert(0 <= j / 2 < i);
                        assert(post[j / 2] == pre[j / 2]);
                    } else if j == 2 * i {
                        assert(j % 2 == 0 && j / 2 == i);
                    } else {
                        assert(j == 2 * i + 1);
                        assert(j % 2 == 1 && j / 2 == i);
                    }
                }
                assert(hex_chars(post) =~= hex_chars(pre) + seq![
                    hex_digit_char(self@[i as int] as int / 16),
                    hex_digit_char(self@[i as int] as int % 16),
                ]);
            }
            i += 1;
        }
        proof {
            assert(self@.take(16) =~= self@);
        }
        out
    }

    /// The canonical hyphenated form, for example
    /// `550e8400-e29b-41d4-a716-446655440000`.
    pub fn canonical_string(&self) -> (r: String)
        requires
            self.wf(),
        ensures
            r@ == canonical_chars(self@),
            r@.len() == 36,
    {
        let mut out = String::new();
        let mut p: usize = 0;
        while p < 36
            invariant
                self.wf(),
                p <= 36,
                out@ =~= canonical_chars(self@).take(p as int),
            decreases 36 - p,
        {
            if p == 8 || p == 13 || p == 18 || p == 23 {
                proof {
                    reveal_strlit("-");
                }
                out.append("-");
            } else {
                let idx: usize = p - (if p > 8 {
                    1usize
                } else {
                    0usize
                }) - (if p > 13 {
                    1usize
                } else {
                    0usize
                }) - (if p > 18 {
                    1usize
                } else {
                    0usize
                }) - (if p > 23 {
                    1usize
                } else {
                    0usize
                });
                proof {
                    assert(idx == canon_nib_index(p as int));
                    assert(0 <= idx < 32);
                }
                let b = self.bytes[idx / 2];
                let v: u8 = if idx % 2 == 0 {
                    b / 16
                } else {
                    b % 16
                };
                proof {
                    assert(v as int == nibble_of(self@, idx as int));
                }
                out.append(hex_digit_str(v));
            }
            proof {
                assert(out@ =~= canonical_chars(self@).take(p + 1));
            }
            p += 1;
        }
        proof {
            assert(canonical_chars(self@).take(36) =~= canonical_chars(self@));
        }
        out
    }

    /// Parses the canonical hyphenated form back into an identifier.  Returns
    /// `Some` exactly on strings of the canonical shape, and then the parsed
    /// identifier renders back to the input.
    pub fn parse_canonical(s: &str) -> (r: Option<Uid>)
        ensures
            r is Some <==> is_canonical_uid(s@),
            r matches Some(u) ==> u.wf() && canonical_chars(u@) == s@,
    {
        proof {
            if is_canonical_uid(s@) {
                assert forall|i: int| 0 <= i < s@.len() implies '\0' <= #[trigger] s@[i]
                    <= '\u{7f}' by {
                    if canon_pos_is_hyphen(i) {
                        assert(s@[i] == '-');
                    } else {
                        assert(is_hex_digit_char(s@[i]));
                    }
                }
                assert(vstd::string::is_ascii(s));
            }
        }
        if !s.is_ascii() {
            return None;
        }
        proof {
            vstd::string::is_ascii_spec_bytes(s);
            assert(s.spec_bytes().len() == s@.len());
        }
        let sb: &[u8] = s.as_bytes();
        proof {
            vstd::slice::axiom_spec_len(sb);
        }
        if sb.len() != 36 {
            return None;
        }
        proof {
            assert(s@.len() == 36);
        }
        let mut nibs: Vec<u8> = Vec::new();
        let mut p: usize = 0;
        while p < 36
            invariant
                s@.len() == 36,
                p <= 36,
                nibs@.len() == canon_nib_index(p as int),
                forall|q: int|
                    0 <= q < p ==> (if canon_pos_is_hyphen(q) {
                        #[trigger] s@[q] == '-'
                    } else {
                        is_hex_digit_char(s@[q]) && nibs@[canon_nib_index(q)] as int == hex_val(
                            s@[q],
                        )
                    }),
                forall|j: int| 0 <= j < nibs@.len() ==> #[trigger] nibs@[j] < 16,
            decreases 36 - p,
        {
            let c = s.get_char(p);
            if p == 8 || p == 13 || p == 18 || p == 23 {
                if c != '-' {
                    return None;
                }
            } else {
                let code = c as u32;
                let v: u8 = if 48 <= code && code <= 57 {
                    (code - 48) as u8
                } else if 97 <= code && code <= 102 {
                    (code - 87) as u8
                } else {
                    return None;
                };
                proof {
                    assert(is_hex_digit_char(c));
                    assert(v as int == hex_val(c));
                }
                nibs.push(v);
            }
            p += 1;
        }
        let mut bytes: Vec<u8> = Vec::new();
        let mut i: usize = 0;
        while i < 16
            invariant
                i <= 16,
                nibs@.len() == 32,
                forall|j: int| 0 <= j < 32 ==> #[trigger] nibs@[j] < 16,
                bytes@.len() == i,
                forall|k: int|
                    0 <= k < i ==> #[trigger] bytes@[k] as int == nibs@[2 * k] * 16 + nibs@[2 * k
                        + 1],
            decreases 16 - i,
        {
            let b: u8 = nibs[2 * i] * 16 + nibs[2 * i + 1];
            bytes.push(b);
            i += 1;
        }
        let u = Uid { bytes };
        proof {
            assert forall|k: int| 0 <= k < 32 implies nibble_of(u@, k) == nibs@[k] as int by {
                let b = u@[k / 2] as int;
                assert(b == nibs@[2 * (k / 2)] * 16 + nibs@[2 * (k / 2) + 1]);
                if k % 2 == 0 {
                    assert(2 * (k / 2) == k);
                    assert((nibs@[k] * 16 + nibs@[k + 1]) / 16 == nibs@[k]) by (nonlinear_arith)
                        requires
                            nibs@[k] < 16,
                            nibs@[k + 1] < 16,
                    ;
                } else {
                    assert(2 * (k / 2) + 1 == k);
                    assert((nibs@[k - 1] * 16 + nibs@[k]) % 16 == nibs@[k]) by (nonlinear_arith)
                        requires
                            nibs@[k - 1] < 16,
                            nibs@[k] < 16,
                    ;
                }
            }
            assert forall|q: int| 0 <= q < 36 implies canonical_chars(u@)[q] == s@[q] by {
                if canon_pos_is_hyphen(q) {
                } else {
                    assert(0 <= canon_nib_index(q) < 32);
                    lemma_hex_digit_char_val(hex_val(s@[q]));
                }
            }
            assert(canonical_chars(u@) =~= s@);
            assert(is_canonical_uid(s@));
        }
        Some(u)
    }
}


/// A hexadecimal digit character is ASCII.
pub proof fn lemma_hex_digit_ascii(d: int)
    requires
        0 <= d < 16,
    ensures
        '\0' <= hex_digit_char(d) <= '\u{7f}',
{
}

/// Every character of the canonical form is ASCII.
pub proof fn lemma_canonical_ascii(id: Seq<u8>, p: int)
    requires
        id.len() == 16,
        0 <= p < 36,
    ensures
        '\0' <= canonical_chars(id)[p] <= '\u{7f}',
{
    if !canon_pos_is_hyphen(p) {
        assert(0 <= canon_nib_index(p) < 32);
        lemma_hex_digit_ascii(nibble_of(id, canon_nib_index(p)));
    }
}

} // verus!
