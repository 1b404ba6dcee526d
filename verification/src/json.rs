//! The wire syntax of the distribution layer: a small JSON shape, decoded
//! from raw bytes.
//!
//! Every message this layer reads — inbound control frames, payloads arriving
//! from the shared bus, and channel-directory replies — is one flat JSON
//! object whose values are strings, integers, arrays of integers, or one
//! nested object of string/integer values.  That shape is the whole grammar:
//! anything else (deeper nesting, floats, booleans, null) is a decode error,
//! which the session layer answers with an error notice rather than a closed
//! connection.
//!
//! The grammar itself is written down as the `spec_*` functions below over
//! byte sequences; the executable parser returns exactly what they denote.
//! Strings decode the standard escapes and `\u` with a non-surrogate code
//! point; integers must stay clearly inside `i64` (at most seventeen
//! digits).

use vstd::prelude::*;

verus! {

/// A decoded scalar: a string (as decoded bytes) or an integer.
pub enum JsonScalar {
    Str(Vec<u8>),
    Int(i64),
}

/// A decoded value of the flat object shape.
pub enum JsonVal {
    Str(Vec<u8>),
    Int(i64),
    Ints(Vec<i64>),
    Obj(Vec<(Vec<u8>, JsonScalar)>),
}

/// Mathematical image of a scalar.
pub enum GScalar {
    Str(Seq<u8>),
    Int(int),
}

/// Mathematical image of a value.
pub enum GVal {
    Str(Seq<u8>),
    Int(int),
    Ints(Seq<int>),
    Obj(Seq<(Seq<u8>, GScalar)>),
}

impl JsonScalar {
    /// The mathematical value this scalar denotes.
    pub open spec fn rep(self) -> GScalar {
        match self {
            JsonScalar::Str(b) => GScalar::Str(b@),
            JsonScalar::Int(n) => GScalar::Int(n as int),
        }
    }
}

impl JsonVal {
    /// The mathematical value this value denotes.
    pub open spec fn rep(self) -> GVal {
        match self {
            JsonVal::Str(b) => GVal::Str(b@),
            JsonVal::Int(n) => GVal::Int(n as int),
            JsonVal::Ints(v) => GVal::Ints(v@.map_values(|x: i64| x as int)),
            JsonVal::Obj(ps) => GVal::Obj(
                ps@.map_values(|p: (Vec<u8>, JsonScalar)| (p.0@, p.1.rep())),
            ),
        }
    }
}

/// The bytes JSON treats as insignificant whitespace.
pub open spec fn is_ws(b: u8) -> bool {
    b == 32 || b == 9 || b == 10 || b == 13
}

/// The first position at or after `i` holding something other than
/// whitespace (or the end of the input).
pub open spec fn spec_ws(s: Seq<u8>, i: int) -> int
    decreases s.len() - i,
{
    if 0 <= i < s.len() && is_ws(s[i]) {
        spec_ws(s, i + 1)
    } else {
        i
    }
}

/// Position `i` is in range and holds byte `b`.
pub open spec fn at_is(s: Seq<u8>, i: int, b: u8) -> bool {
    0 <= i < s.len() && s[i] == b
}

/// The value of a hexadecimal digit, or -1.
pub open spec fn hex_val(b: u8) -> int {
    if 48 <= b <= 57 {
        b - 48
    } else if 65 <= b <= 70 {
        b - 55
    } else if 97 <= b <= 102 {
        b - 87
    } else {
        -1
    }
}

/// The UTF-8 encoding of a code point below 0x10000.
pub open spec fn utf8_enc(cp: int) -> Seq<u8> {
    if cp < 0x80 {
        seq![cp as u8]
    } else if cp < 0x800 {
        seq![(0xC0 + cp / 0x40) as u8, (0x80 + cp % 0x40) as u8]
    } else {
        seq![
            (0xE0 + cp / 0x1000) as u8,
            (0x80 + (cp / 0x40) % 0x40) as u8,
            (0x80 + cp % 0x40) as u8,
        ]
    }
}

/// The byte a single-character escape stands for, or -1 when the character
/// may not follow a backslash.
pub open spec fn escape_val(b: u8) -> int {
    if b == 34 {
        34  // quotation mark
    } else if b == 92 {
        92  // backslash
    } else if b == 47 {
        47  // slash
    } else if b == 98 {
        8  // backspace
    } else if b == 102 {
        12  // form feed
    } else if b == 110 {
        10  // line feed
    } else if b == 114 {
        13  // carriage return
    } else if b == 116 {
        9  // tab
    } else {
        -1
    }
}

/// The decoded content of a string literal whose opening quote stands just
/// before `i`, with the position after the closing quote.  Unescaped bytes
/// are taken as they are (so raw UTF-8 passes through); control bytes must be
/// escaped; `\u` escapes take a non-surrogate code point.
pub open spec fn spec_string_body(s: Seq<u8>, i: int) -> Option<(Seq<u8>, int)>
    decreases s.len() - i,
{
    if i < 0 || i >= s.len() {
        None
    } else if s[i] == 34 {
        Some((Seq::empty(), i + 1))
    } else if s[i] == 92 {
        if i + 1 < s.len() && escape_val(s[i + 1]) >= 0 {
            match spec_string_body(s, i + 2) {
                Some((rest, j)) => Some((seq![escape_val(s[i + 1]) as u8] + rest, j)),
                None => None,
            }
        } else if i + 5 < s.len() && s[i + 1] == 117 && hex_val(s[i + 2]) >= 0 && hex_val(
            s[i + 3],
        ) >= 0 && hex_val(s[i + 4]) >= 0 && hex_val(s[i + 5]) >= 0 {
            let cp = hex_val(s[i + 2]) * 0x1000 + hex_val(s[i + 3]) * 0x100 + hex_val(s[i + 4])
                * 0x10 + hex_val(s[i + 5]);
            if 0xD800 <= cp < 0xE000 {
                None
            } else {
                match spec_string_body(s, i + 6) {
                    Some((rest, j)) => Some((utf8_enc(cp) + rest, j)),
                    None => None,
                }
            }
        } else {
            None
        }
    } else if s[i] >= 32 {
        match spec_string_body(s, i + 1) {
            Some((rest, j)) => Some((seq![s[i]] + rest, j)),
            None => None,
        }
    } else {
        None
    }
}

/// A run of decimal digits starting at `i`, folded onto `acc`.  More than
/// seventeen significant digits do not fit the grammar.
pub open spec fn spec_digits(s: Seq<u8>, i: int, acc: int) -> Option<(int, int)>
    decreases s.len() - i,
{
    if 0 <= i < s.len() && 48 <= s[i] <= 57 {
        if acc > 9_999_999_999_999_999 {
            None
        } else {
            spec_digits(s, i + 1, acc * 10 + (s[i] - 48))
        }
    } else {
        Some((acc, i))
    }
}

/// A JSON integer starting at `i`: an optional minus sign and digits without
/// a redundant leading zero, with its value and the position after it.
pub open spec fn spec_int(s: Seq<u8>, i: int) -> Option<(int, int)> {
    let neg = at_is(s, i, 45);
    let j = if neg {
        i + 1
    } else {
        i
    };
    if 0 <= j < s.len() && 48 <= s[j] <= 57 {
        if s[j] == 48 {
            if j + 1 < s.len() && 48 <= s[j + 1] <= 57 {
                None
            } else {
                Some((0, j + 1))
            }
        } else {
            match spec_digits(s, j, 0) {
                Some((v, k)) => Some(
                    (
                        if neg {
                            -v
                        } else {
                            v
                        },
                        k,
                    ),
                ),
                None => None,
            }
        }
    } else {
        None
    }
}

/// A scalar starting at `i`: a string literal or an integer.
pub open spec fn spec_scalar(s: Seq<u8>, i: int) -> Option<(GScalar, int)> {
    if at_is(s, i, 34) {
        match spec_string_body(s, i + 1) {
            Some((b, j)) => Some((GScalar::Str(b), j)),
            None => None,
        }
    } else {
        match spec_int(s, i) {
            Some((v, j)) => Some((GScalar::Int(v), j)),
            None => None,
        }
    }
}

/// The comma-separated integers of an array, starting at the first integer;
/// ends just before the byte the caller checks to be `]`.
pub open spec fn spec_ints_items(s: Seq<u8>, i: int, fuel: nat) -> Option<(Seq<int>, int)>
    decreases fuel,
{
    if fuel == 0 {
        None
    } else {
        match spec_int(s, i) {
            Some((v, j)) => {
                let j1 = spec_ws(s, j);
                if at_is(s, j1, 44) {
                    match spec_ints_items(s, spec_ws(s, j1 + 1), (fuel - 1) as nat) {
                        Some((rest, k)) => Some((seq![v] + rest, k)),
                        None => None,
                    }
                } else {
                    Some((seq![v], j1))
                }
            },
            None => None,
        }
    }
}

/// The members of the nested object, starting at the first key; scalar values
/// only.  Ends just before the byte the caller checks to be `}`.
pub open spec fn spec_inner_pairs(s: Seq<u8>, i: int, fuel: nat) -> Option<
    (Seq<(Seq<u8>, GScalar)>, int),
>
    decreases fuel,
{
    if fuel == 0 {
        None
    } else if at_is(s, i, 34) {
        match spec_string_body(s, i + 1) {
            Some((key, j)) => {
                let j1 = spec_ws(s, j);
                if at_is(s, j1, 58) {
                    match spec_scalar(s, spec_ws(s, j1 + 1)) {
                        Some((v, k)) => {
                            let k1 = spec_ws(s, k);
                            if at_is(s, k1, 44) {
                                match spec_inner_pairs(s, spec_ws(s, k1 + 1), (fuel - 1) as nat) {
                                    Some((rest, k2)) => Some((seq![(key, v)] + rest, k2)),
                                    None => None,
                                }
                            } else {
                                Some((seq![(key, v)], k1))
                            }
                        },
                        None => None,
                    }
                } else {
                    None
                }
            },
            None => None,
        }
    } else {
        None
    }
}

/// A value of the top-level object: a string, an integer, an array of
/// integers, or one nested object of scalars.
pub open spec fn spec_value(s: Seq<u8>, i: int, fuel: nat) -> Option<(GVal, int)> {
    if at_is(s, i, 34) {
        match spec_string_body(s, i + 1) {
            Some((b, j)) => Some((GVal::Str(b), j)),
            None => None,
        }
    } else if at_is(s, i, 91) {
        let j = spec_ws(s, i + 1);
        if at_is(s, j, 93) {
            Some((GVal::Ints(Seq::empty()), j + 1))
        } else {
            match spec_ints_items(s, j, fuel) {
                Some((vs, k)) => {
                    if at_is(s, k, 93) {
                        Some((GVal::Ints(vs), k + 1))
                    } else {
                        None
                    }
                },
                None => None,
            }
        }
    } else if at_is(s, i, 123) {
        let j = spec_ws(s, i + 1);
        if at_is(s, j, 125) {
            Some((GVal::Obj(Seq::empty()), j + 1))
        } else {
            match spec_inner_pairs(s, j, fuel) {
                Some((ps, k)) => {
                    if at_is(s, k, 125) {
                        Some((GVal::Obj(ps), k + 1))
                    } else {
                        None
                    }
                },
                None => None,
            }
        }
    } else {
        match spec_int(s, i) {
            Some((v, j)) => Some((GVal::Int(v), j)),
            None => None,
        }
    }
}

/// The members of the top-level object, starting at the first key.  Ends just
/// before the byte the caller checks to be `}`.
pub open spec fn spec_top_pairs(s: Seq<u8>, i: int, fuel: nat) -> Option<
    (Seq<(Seq<u8>, GVal)>, int),
>
    decreases fuel,
{
    if fuel == 0 {
        None
    } else if at_is(s, i, 34) {
        match spec_string_body(s, i + 1) {
            Some((key, j)) => {
                let j1 = spec_ws(s, j);
                if at_is(s, j1, 58) {
                    match spec_value(s, spec_ws(s, j1 + 1), fuel) {
                        Some((v, k)) => {
                            let k1 = spec_ws(s, k);
                            if at_is(s, k1, 44) {
                                match spec_top_pairs(s, spec_ws(s, k1 + 1), (fuel - 1) as nat) {
                                    Some((rest, k2)) => Some((seq![(key, v)] + rest, k2)),
                                    None => None,
                                }
                            } else {
                                Some((seq![(key, v)], k1))
                            }
                        },
                        None => None,
                    }
                } else {
                    None
                }
            },
            None => None,
        }
    } else {
        None
    }
}

/// A whole input: one top-level object with nothing but whitespace around
/// it, denoted as its list of members in order.
pub open spec fn spec_doc(s: Seq<u8>) -> Option<Seq<(Seq<u8>, GVal)>> {
    let i = spec_ws(s, 0);
    if at_is(s, i, 123) {
        let j = spec_ws(s, i + 1);
        if at_is(s, j, 125) {
            if spec_ws(s, j + 1) == s.len() {
                Some(Seq::empty())
            } else {
                None
            }
        } else {
            match spec_top_pairs(s, j, s.len()) {
                Some((ps, k)) => {
                    if at_is(s, k, 125) && spec_ws(s, k + 1) == s.len() {
                        Some(ps)
                    } else {
                        None
                    }
                },
                None => None,
            }
        }
    } else {
        None
    }
}

/// Mathematical image of a parsed document: its members, in order.
pub open spec fn doc_rep(d: Seq<(Vec<u8>, JsonVal)>) -> Seq<(Seq<u8>, GVal)> {
    d.map_values(|p: (Vec<u8>, JsonVal)| (p.0@, p.1.rep()))
}

/// Skip whitespace from `i`.
fn ws(s: &Vec<u8>, i: usize) -> (r: usize)
    requires
        i <= s@.len(),
    ensures
        r as int == spec_ws(s@, i as int),
        i <= r <= s@.len(),
{
    let mut r = i;
    while r < s.len() && (s[r] == 32 || s[r] == 9 || s[r] == 10 || s[r] == 13)
        invariant
            i <= r <= s@.len(),
            spec_ws(s@, i as int) == spec_ws(s@, r as int),
        decreases s@.len() - r,
    {
        r += 1;
    }
    r
}

/// The value of a hexadecimal digit, or -1.
fn hexv(b: u8) -> (r: i32)
    ensures
        r as int == hex_val(b),
{
    if 48 <= b && b <= 57 {
        (b - 48) as i32
    } else if 65 <= b && b <= 70 {
        (b - 55) as i32
    } else if 97 <= b && b <= 102 {
        (b - 87) as i32
    } else {
        -1
    }
}

/// The byte a single-character escape stands for, or -1.
fn escv(b: u8) -> (r: i32)
    ensures
        r as int == escape_val(b),
{
    if b == 34 {
        34
    } else if b == 92 {
        92
    } else if b == 47 {
        47
    } else if b == 98 {
        8
    } else if b == 102 {
        12
    } else if b == 110 {
        10
    } else if b == 114 {
        13
    } else if b == 116 {
        9
    } else {
        -1
    }
}

/// Decode a string literal's content, the opening quote already consumed.
#[verifier::rlimit(60)]
fn string_body(s: &Vec<u8>, i: usize) -> (r: Option<(Vec<u8>, usize)>)
    requires
        i <= s@.len(),
    ensures
        (match (r, spec_string_body(s@, i as int)) {
            (Some((b, j)), Some((gb, gj))) => b@ == gb && j as int == gj && j <= s@.len(),
            (None, None) => true,
            _ => false,
        }),
    decreases s@.len() - i,
{
    if i >= s.len() {
        return None;
    }
    let b0 = s[i];
    if b0 == 34 {
        return Some((Vec::new(), i + 1));
    }
    if b0 == 92 {
        if i + 1 < s.len() && escv(s[i + 1]) >= 0 {
            let e = escv(s[i + 1]);
            match string_body(s, i + 2) {
                Some((rest, j)) => {
                    let ghost grest = rest@;
                    let mut v = rest;
                    v.insert(0, e as u8);
                    proof {
                        assert(v@ =~= seq![escape_val(s@[i as int + 1]) as u8] + grest);
                    }
                    return Some((v, j));
                },
                None => {
                    return None;
                },
            }
        }
        if s.len() - i > 5 && s[i + 1] == 117 {
            let h2 = hexv(s[i + 2]);
            let h3 = hexv(s[i + 3]);
            let h4 = hexv(s[i + 4]);
            let h5 = hexv(s[i + 5]);
            if h2 >= 0 && h3 >= 0 && h4 >= 0 && h5 >= 0 {
                let cp: u32 = (h2 as u32) * 0x1000 + (h3 as u32) * 0x100 + (h4 as u32) * 0x10 + (
                h5 as u32);
                if 0xD800 <= cp && cp < 0xE000 {
                    return None;
                }
                match string_body(s, i + 6) {
                    Some((rest, j)) => {
                        let ghost grest = rest@;
                        let mut v = rest;
                        if cp < 0x80 {
                            v.insert(0, cp as u8);
                        } else if cp < 0x800 {
                            v.insert(0, (0x80 + cp % 0x40) as u8);
                            v.insert(0, (0xC0 + cp / 0x40) as u8);
                        } else {
                            v.insert(0, (0x80 + cp % 0x40) as u8);
                            v.insert(0, (0x80 + (cp / 0x40) % 0x40) as u8);
                            v.insert(0, (0xE0 + cp / 0x1000) as u8);
                        }
                        proof {
                            assert(v@ =~= utf8_enc(cp as int) + grest);
                        }
                        return Some((v, j));
                    },
                    None => {
                        return None;
                    },
                }
            }
        }
        return None;
    }
    if b0 >= 32 {
        match string_body(s, i + 1) {
            Some((rest, j)) => {
                let ghost grest = rest@;
                let mut v = rest;
                v.insert(0, b0);
                proof {
                    assert(v@ =~= seq![s@[i as int]] + grest);
                }
                return Some((v, j));
            },
            None => {
                return None;
            },
        }
    }
    None
}

/// Fold decimal digits onto `acc`.
fn digits(s: &Vec<u8>, i: usize, acc: i64) -> (r: Option<(i64, usize)>)
    requires
        i <= s@.len(),
        0 <= acc <= 99_999_999_999_999_999,
    ensures
        (match (r, spec_digits(s@, i as int, acc as int)) {
            (Some((v, j)), Some((gv, gj))) => v as int == gv && j as int == gj && j <= s@.len()
                && 0 <= v <= 99_999_999_999_999_999,
            (None, None) => true,
            _ => false,
        }),
    decreases s@.len() - i,
{
    if i < s.len() {
        let b = s[i];
        if 48 <= b && b <= 57 {
            if acc > 9_999_999_999_999_999 {
                return None;
            }
            return digits(s, i + 1, acc * 10 + ((b - 48) as i64));
        }
    }
    Some((acc, i))
}

/// Parse a JSON integer.
pub(crate) fn int_lit(s: &Vec<u8>, i: usize) -> (r: Option<(i64, usize)>)
    requires
        i <= s@.len(),
    ensures
        (match (r, spec_int(s@, i as int)) {
            (Some((v, j)), Some((gv, gj))) => v as int == gv && j as int == gj && j <= s@.len(),
            (None, None) => true,
            _ => false,
        }),
{
    let neg = i < s.len() && s[i] == 45;
    let j = if neg {
        i + 1
    } else {
        i
    };
    if j < s.len() {
        let b = s[j];
        if 48 <= b && b <= 57 {
            if b == 48 {
                if j + 1 < s.len() && 48 <= s[j + 1] && s[j + 1] <= 57 {
                    return None;
                }
                return Some((0, j + 1));
            }
            return match digits(s, j, 0) {
                Some((v, k)) => Some(
                    (
                        if neg {
                            -v
                        } else {
                            v
                        },
                        k,
                    ),
                ),
                None => None,
            };
        }
    }
    None
}

/// Parse a scalar.
fn scalar(s: &Vec<u8>, i: usize) -> (r: Option<(JsonScalar, usize)>)
    requires
        i <= s@.len(),
    ensures
        (match (r, spec_scalar(s@, i as int)) {
            (Some((v, j)), Some((gv, gj))) => v.rep() == gv && j as int == gj && j <= s@.len(),
            (None, None) => true,
            _ => false,
        }),
{
    if i < s.len() && s[i] == 34 {
        match string_body(s, i + 1) {
            Some((b, j)) => Some((JsonScalar::Str(b), j)),
            None => None,
        }
    } else {
        match int_lit(s, i) {
            Some((v, j)) => Some((JsonScalar::Int(v), j)),
            None => None,
        }
    }
}

/// Parse the comma-separated integers of an array.
fn ints_items(s: &Vec<u8>, i: usize, fuel: usize) -> (r: Option<(Vec<i64>, usize)>)
    requires
        i <= s@.len(),
    ensures
        (match (r, spec_ints_items(s@, i as int, fuel as nat)) {
            (Some((vs, k)), Some((gvs, gk))) => vs@.map_values(|x: i64| x as int) == gvs && k
                as int == gk && k <= s@.len(),
            (None, None) => true,
            _ => false,
        }),
    decreases fuel,
{
    if fuel == 0 {
        return None;
    }
    match int_lit(s, i) {
        None => None,
        Some((v, j)) => {
            let j1 = ws(s, j);
            if j1 < s.len() && s[j1] == 44 {
                let j2 = ws(s, j1 + 1);
                match ints_items(s, j2, fuel - 1) {
                    Some((rest, k)) => {
                        let ghost grest = rest@;
                        let mut out = rest;
                        out.insert(0, v);
                        proof {
                            assert(out@ =~= seq![v] + grest);
                            assert(out@.map_values(|x: i64| x as int) =~= seq![v as int]
                                + grest.map_values(|x: i64| x as int));
                        }
                        Some((out, k))
                    },
                    None => None,
                }
            } else {
                let out = vec![v];
                proof {
                    assert(out@.map_values(|x: i64| x as int) =~= seq![v as int]);
                }
                Some((out, j1))
            }
        },
    }
}

/// Mathematical image of a list of inner-object members.
pub open spec fn inner_rep(ps: Seq<(Vec<u8>, JsonScalar)>) -> Seq<(Seq<u8>, GScalar)> {
    ps.map_values(|p: (Vec<u8>, JsonScalar)| (p.0@, p.1.rep()))
}

/// Parse the members of the nested object.
fn inner_pairs(s: &Vec<u8>, i: usize, fuel: usize) -> (r: Option<
    (Vec<(Vec<u8>, JsonScalar)>, usize),
>)
    requires
        i <= s@.len(),
    ensures
        (match (r, spec_inner_pairs(s@, i as int, fuel as nat)) {
            (Some((ps, k)), Some((gps, gk))) => inner_rep(ps@) == gps && k as int == gk && k
                <= s@.len(),
            (None, None) => true,
            _ => false,
        }),
    decreases fuel,
{
    if fuel == 0 {
        return None;
    }
    if !(i < s.len() && s[i] == 34) {
        return None;
    }
    match string_body(s, i + 1) {
        None => None,
        Some((key, j)) => {
            let j1 = ws(s, j);
            if !(j1 < s.len() && s[j1] == 58) {
                return None;
            }
            let j2 = ws(s, j1 + 1);
            match scalar(s, j2) {
                None => None,
                Some((v, k)) => {
                    let k1 = ws(s, k);
                    if k1 < s.len() && s[k1] == 44 {
                        let k2s = ws(s, k1 + 1);
                        match inner_pairs(s, k2s, fuel - 1) {
                            Some((rest, k2)) => {
                                let ghost grest = rest@;
                                let ghost gkey = key@;
                                let ghost gv = v.rep();
                                let mut out = rest;
                                out.insert(0, (key, v));
                                proof {
                                    assert(inner_rep(out@) =~= seq![(gkey, gv)] + inner_rep(
                                        grest,
                                    ));
                                }
                                Some((out, k2))
                            },
                            None => None,
                        }
                    } else {
                        let ghost gkey = key@;
                        let ghost gv = v.rep();
                        let out = vec![(key, v)];
                        proof {
                            assert(inner_rep(out@) =~= seq![(gkey, gv)]);
                        }
                        Some((out, k1))
                    }
                },
            }
        },
    }
}

/// Parse one value of the top-level object.
fn value(s: &Vec<u8>, i: usize, fuel: usize) -> (r: Option<(JsonVal, usize)>)
    requires
        i <= s@.len(),
    ensures
        (match (r, spec_value(s@, i as int, fuel as nat)) {
            (Some((v, j)), Some((gv, gj))) => v.rep() == gv && j as int == gj && j <= s@.len(),
            (None, None) => true,
            _ => false,
        }),
{
    if i < s.len() && s[i] == 34 {
        return match string_body(s, i + 1) {
            Some((b, j)) => Some((JsonVal::Str(b), j)),
            None => None,
        };
    }
    if i < s.len() && s[i] == 91 {
        let j = ws(s, i + 1);
        if j < s.len() && s[j] == 93 {
            let out = JsonVal::Ints(Vec::new());
            proof {
                assert(Seq::<i64>::empty().map_values(|x: i64| x as int) =~= Seq::<
                    int,
                >::empty());
            }
            return Some((out, j + 1));
        }
        return match ints_items(s, j, fuel) {
            Some((vs, k)) => {
                if k < s.len() && s[k] == 93 {
                    Some((JsonVal::Ints(vs), k + 1))
                } else {
                    None
                }
            },
            None => None,
        };
    }
    if i < s.len() && s[i] == 123 {
        let j = ws(s, i + 1);
        if j < s.len() && s[j] == 125 {
            let out = JsonVal::Obj(Vec::new());
            proof {
                assert(inner_rep(Seq::empty()) =~= Seq::<(Seq<u8>, GScalar)>::empty());
            }
            return Some((out, j + 1));
        }
        return match inner_pairs(s, j, fuel) {
            Some((ps, k)) => {
                if k < s.len() && s[k] == 125 {
                    Some((JsonVal::Obj(ps), k + 1))
                } else {
                    None
                }
            },
            None => None,
        };
    }
    match int_lit(s, i) {
        Some((v, j)) => Some((JsonVal::Int(v), j)),
        None => None,
    }
}

/// Parse the members of the top-level object.
fn top_pairs(s: &Vec<u8>, i: usize, fuel: usize) -> (r: Option<(Vec<(Vec<u8>, JsonVal)>, usize)>)
    requires
        i <= s@.len(),
    ensures
        (match (r, spec_top_pairs(s@, i as int, fuel as nat)) {
            (Some((ps, k)), Some((gps, gk))) => doc_rep(ps@) == gps && k as int == gk && k
                <= s@.len(),
            (None, None) => true,
            _ => false,
        }),
    decreases fuel,
{
    if fuel == 0 {
        return None;
    }
    if !(i < s.len() && s[i] == 34) {
        return None;
    }
    match string_body(s, i + 1) {
        None => None,
        Some((key, j)) => {
            let j1 = ws(s, j);
            if !(j1 < s.len() && s[j1] == 58) {
                return None;
            }
            let j2 = ws(s, j1 + 1);
            match value(s, j2, fuel) {
                None => None,
                Some((v, k)) => {
                    let k1 = ws(s, k);
                    if k1 < s.len() && s[k1] == 44 {
                        let k2s = ws(s, k1 + 1);
                        match top_pairs(s, k2s, fuel - 1) {
                            Some((rest, k2)) => {
                                let ghost grest = rest@;
                                let ghost gkey = key@;
                                let ghost gv = v.rep();
                                let mut out = rest;
                                out.insert(0, (key, v));
                                proof {
                                    assert(doc_rep(out@) =~= seq![(gkey, gv)] + doc_rep(grest));
                                }
                                Some((out, k2))
                            },
                            None => None,
                        }
                    } else {
                        let ghost gkey = key@;
                        let ghost gv = v.rep();
                        let out = vec![(key, v)];
                        proof {
                            assert(doc_rep(out@) =~= seq![(gkey, gv)]);
                        }
                        Some((out, k1))
                    }
                },
            }
        },
    }
}

/// Parse a whole input into the members of its top-level object.
pub fn parse_doc(s: &Vec<u8>) -> (r: Option<Vec<(Vec<u8>, JsonVal)>>)
    ensures
        (match (r, spec_doc(s@)) {
            (Some(d), Some(gd)) => doc_rep(d@) == gd,
            (None, None) => true,
            _ => false,
        }),
{
    let i = ws(s, 0);
    if !(i < s.len() && s[i] == 123) {
        return None;
    }
    let j = ws(s, i + 1);
    if j < s.len() && s[j] == 125 {
        if ws(s, j + 1) == s.len() {
            let out: Vec<(Vec<u8>, JsonVal)> = Vec::new();
            proof {
                assert(doc_rep(Seq::empty()) =~= Seq::<(Seq<u8>, GVal)>::empty());
            }
            return Some(out);
        }
        return None;
    }
    match top_pairs(s, j, s.len()) {
        Some((ps, k)) => {
            if k < s.len() && s[k] == 125 && ws(s, k + 1) == s.len() {
                Some(ps)
            } else {
                None
            }
        },
        None => None,
    }
}

} // verus!
