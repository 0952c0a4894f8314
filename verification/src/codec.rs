//! Wire-format codec for condition flag strings.
//!
//! A condition report arrives as a flag string in the canonical grammar
//! `is_dirty=<bool>,is_overweight=<bool>,is_broken=<bool>` with
//! `<bool>` one of `true` / `false`: fixed field order, exact spelling,
//! no surrounding or extra characters.  `parse_condition` validates and
//! decodes such a string, `format_condition` is its exact inverse, and
//! `is_valid_condition_format` checks membership in the grammar.

use vstd::prelude::*;

verus! {

/// The three boolean condition flags carried by a report.
#[derive(Clone, Copy, Debug, PartialEq, Eq, Structural)]
pub struct ConditionFlags {
    pub is_dirty: bool,
    pub is_overweight: bool,
    pub is_broken: bool,
}

/// Rejection of a raw flag string that does not match the canonical
/// grammar.  Raised only at the ingestion boundary: a record whose raw
/// string fails here never enters history.
#[derive(Clone, Copy, Debug, PartialEq, Eq, Structural)]
pub struct FormatError;

/// The literal `lit` occurs in `s` starting at position `i`.
pub open spec fn lit_at(s: Seq<char>, i: int, lit: Seq<char>) -> bool {
    0 <= i && i + lit.len() <= s.len() && s.subrange(i, i + lit.len()) == lit
}

/// The characters spelling one flag value.
pub open spec fn spec_bool_text(v: bool) -> Seq<char> {
    if v {
        "true"@
    } else {
        "false"@
    }
}

/// The canonical flag string for a flag triple, as a character sequence.
pub open spec fn spec_format(f: ConditionFlags) -> Seq<char> {
    "is_dirty="@ + spec_bool_text(f.is_dirty) + ",is_overweight="@ + spec_bool_text(
        f.is_overweight,
    ) + ",is_broken="@ + spec_bool_text(f.is_broken)
}

/// Reads one boolean value at position `i`: the position after the value
/// is returned along with it.  `true` is tried first; the two spellings
/// share no prefix, so the choice is unambiguous.
pub open spec fn spec_bool_at(s: Seq<char>, i: int) -> Option<(bool, int)> {
    if lit_at(s, i, "true"@) {
        Some((true, i + "true"@.len()))
    } else if lit_at(s, i, "false"@) {
        Some((false, i + "false"@.len()))
    } else {
        None
    }
}

/// The unique flag triple a character sequence encodes, if any: the
/// mathematical meaning of the grammar.  `None` on any deviation --
/// wrong field order, missing field, extra text, different casing.
pub open spec fn spec_parse(s: Seq<char>) -> Option<ConditionFlags> {
    if !lit_at(s, 0, "is_dirty="@) {
        None
    } else {
        match spec_bool_at(s, "is_dirty="@.len() as int) {
            None => None,
            Some((d, i2)) => {
                if !lit_at(s, i2, ",is_overweight="@) {
                    None
                } else {
                    match spec_bool_at(s, i2 + ",is_overweight="@.len()) {
                        None => None,
                        Some((o, i4)) => {
                            if !lit_at(s, i4, ",is_broken="@) {
                                None
                            } else {
                                match spec_bool_at(s, i4 + ",is_broken="@.len()) {
                                    None => None,
                                    Some((b, i6)) => {
                                        if i6 == s.len() {
                                            Some(
                                                ConditionFlags {
                                                    is_dirty: d,
                                                    is_overweight: o,
                                                    is_broken: b,
                                                },
                                            )
                                        } else {
                                            None
                                        }
                                    },
                                }
                            }
                        },
                    }
                }
            },
        }
    }
}

/// A character sequence is a well-formed flag string.
pub open spec fn spec_is_valid(s: Seq<char>) -> bool {
    spec_parse(s) is Some
}

/// Decoding inverts encoding: the canonical flag string of any flag
/// triple parses back to exactly that triple.
pub proof fn lemma_parse_format(f: ConditionFlags)
    ensures
        spec_parse(spec_format(f)) == Some(f),
{
    reveal_strlit("is_dirty=");
    reveal_strlit(",is_overweight=");
    reveal_strlit(",is_broken=");
    reveal_strlit("true");
    reveal_strlit("false");
    let s = spec_format(f);
    let xl: int = spec_bool_text(f.is_dirty).len() as int;
    let yl: int = spec_bool_text(f.is_overweight).len() as int;
    let i2: int = 9 + xl;
    let i4: int = i2 + 15 + yl;
    assert(s.subrange(0, 9) =~= "is_dirty="@);
    assert(s.subrange(9, 9 + xl) =~= spec_bool_text(f.is_dirty));
    if !f.is_dirty {
        assert(s.subrange(9, 13)[0] == s[9]);
    }
    assert(s.subrange(i2, i2 + 15) =~= ",is_overweight="@);
    assert(s.subrange(i2 + 15, i2 + 15 + yl) =~= spec_bool_text(f.is_overweight));
    if !f.is_overweight {
        assert(s.subrange(i2 + 15, i2 + 19)[0] == s[i2 + 15]);
    }
    assert(s.subrange(i4, i4 + 11) =~= ",is_broken="@);
    assert(s.subrange(i4 + 11, s.len() as int) =~= spec_bool_text(f.is_broken));
    if !f.is_broken {
        assert(s.subrange(i4 + 11, i4 + 15)[0] == s[i4 + 11]);
    }
}

/// Encoding inverts decoding: a character sequence that parses to a
/// flag triple is exactly that triple's canonical flag string.
pub proof fn lemma_format_parse(s: Seq<char>, f: ConditionFlags)
    requires
        spec_parse(s) == Some(f),
    ensures
        s == spec_format(f),
{
    reveal_strlit("is_dirty=");
    reveal_strlit(",is_overweight=");
    reveal_strlit(",is_broken=");
    reveal_strlit("true");
    reveal_strlit("false");
    let xl: int = spec_bool_text(f.is_dirty).len() as int;
    let yl: int = spec_bool_text(f.is_overweight).len() as int;
    let i2: int = 9 + xl;
    let i4: int = i2 + 15 + yl;
    assert(s.subrange(0, 9) == "is_dirty="@);
    assert(s.subrange(9, i2) == spec_bool_text(f.is_dirty));
    assert(s.subrange(i2, i2 + 15) == ",is_overweight="@);
    assert(s.subrange(i2 + 15, i2 + 15 + yl) == spec_bool_text(f.is_overweight));
    assert(s.subrange(i4, i4 + 11) == ",is_broken="@);
    assert(s.subrange(i4 + 11, s.len() as int) == spec_bool_text(f.is_broken));
    assert forall|k: int| 0 <= k < s.len() implies s[k] == spec_format(f)[k] by {
        if k < 9 {
            assert(s[k] == s.subrange(0, 9)[k]);
        } else if k < i2 {
            assert(s[k] == s.subrange(9, i2)[k - 9]);
        } else if k < i2 + 15 {
            assert(s[k] == s.subrange(i2, i2 + 15)[k - i2]);
        } else if k < i4 {
            assert(s[k] == s.subrange(i2 + 15, i2 + 15 + yl)[k - (i2 + 15)]);
        } else if k < i4 + 11 {
            assert(s[k] == s.subrange(i4, i4 + 11)[k - i4]);
        } else {
            assert(s[k] == s.subrange(i4 + 11, s.len() as int)[k - (i4 + 11)]);
        }
    }
    assert(s =~= spec_format(f));
}

/// Whether `lit` occurs in `s` starting at character position `i`,
/// decided by character comparison.
pub(crate) fn match_lit_at(s: &str, i: usize, lit: &str) -> (r: bool)
    ensures
        r == lit_at(s@, i as int, lit@),
        r ==> i + lit@.len() <= usize::MAX,
{
    let s_len = s.unicode_len();
    let lit_len = lit.unicode_len();
    if i > s_len || lit_len > s_len - i {
        return false;
    }
    let mut j: usize = 0;
    while j < lit_len
        invariant
            i + lit_len <= s_len,
            s_len == s@.len(),
            lit_len == lit@.len(),
            0 <= j <= lit_len,
            forall|k: int| 0 <= k < j ==> s@[i + k] == lit@[k],
        decreases lit_len - j,
    {
        if s.get_char(i + j) != lit.get_char(j) {
            assert(s@.subrange(i as int, i + lit@.len())[j as int] != lit@[j as int]);
            return false;
        }
        j += 1;
    }
    assert(s@.subrange(i as int, i + lit@.len()) =~= lit@);
    true
}

/// Parses a raw flag string, rejecting any deviation from the canonical
/// grammar with `FormatError`.
pub fn parse_condition(s: &str) -> (r: Result<ConditionFlags, FormatError>)
    ensures
        r matches Ok(f) ==> spec_parse(s@) == Some(f),
        r is Err <==> spec_parse(s@) is None,
{
    if !match_lit_at(s, 0, "is_dirty=") {
        return Err(FormatError);
    }
    let mut i: usize = 9;
    proof {
        reveal_strlit("is_dirty=");
        assert(i == "is_dirty="@.len());
    }
    let is_dirty = match parse_bool_at(s, i) {
        Some((v, next)) => {
            i = next;
            v
        },
        None => {
            return Err(FormatError);
        },
    };
    if !match_lit_at(s, i, ",is_overweight=") {
        return Err(FormatError);
    }
    proof {
        reveal_strlit(",is_overweight=");
    }
    i = i + 15;
    let is_overweight = match parse_bool_at(s, i) {
        Some((v, next)) => {
            i = next;
            v
        },
        None => {
            return Err(FormatError);
        },
    };
    if !match_lit_at(s, i, ",is_broken=") {
        return Err(FormatError);
    }
    proof {
        reveal_strlit(",is_broken=");
    }
    i = i + 11;
    let is_broken = match parse_bool_at(s, i) {
        Some((v, next)) => {
            i = next;
            v
        },
        None => {
            return Err(FormatError);
        },
    };
    if i != s.unicode_len() {
        return Err(FormatError);
    }
    Ok(ConditionFlags { is_dirty, is_overweight, is_broken })
}

/// Reads one boolean flag value at position `i`, returning it with the
/// position just past it.
fn parse_bool_at(s: &str, i: usize) -> (r: Option<(bool, usize)>)
    ensures
        r matches Some((v, next)) ==> spec_bool_at(s@, i as int) == Some((v, next as int)),
        r is None <==> spec_bool_at(s@, i as int) is None,
{
    if match_lit_at(s, i, "true") {
        proof {
            reveal_strlit("true");
        }
        Some((true, i + 4))
    } else if match_lit_at(s, i, "false") {
        proof {
            reveal_strlit("false");
        }
        Some((false, i + 5))
    } else {
        None
    }
}

/// Checks that a raw condition string is in the canonical flag-string
/// grammar; every deviation is rejected.
pub fn is_valid_condition_format(condition_str: &str) -> (r: bool)
    ensures
        r == spec_is_valid(condition_str@),
{
    parse_condition(condition_str).is_ok()
}

/// The spelling of one flag value.
fn bool_text(v: bool) -> (r: &'static str)
    ensures
        r@ == spec_bool_text(v),
{
    if v {
        "true"
    } else {
        "false"
    }
}

/// Reconstructs the canonical flag string of a flag triple: the exact
/// inverse of `parse_condition`.
pub fn format_condition(f: &ConditionFlags) -> (r: String)
    ensures
        r@ == spec_format(*f),
{
    let mut out = String::from_str("is_dirty=");
    out.append(bool_text(f.is_dirty));
    out.append(",is_overweight=");
    out.append(bool_text(f.is_overweight));
    out.append(",is_broken=");
    out.append(bool_text(f.is_broken));
    out
}

} // verus!
