//! Table names and their grammar.
//!
//! A table of the family is named `<basename>_<NN>_<base|compacted>` where
//! `<basename>` starts with a letter and continues with at least one word
//! character, `<NN>` is a zero-padded two-digit resolution between 0 and 15,
//! and the last component tells a base table from a compacted one. Names of
//! any other shape are not part of a table family.

use vstd::prelude::*;

use crate::text::{
    chars_end_with, chars_string, chars_sub, char_digit_value, dec_str, digit_char, digit_to_char,
    digit_val, ends_with, is_alpha_char, is_alpha_exec, is_digit_char, is_digit_exec,
    is_word_char, is_word_exec, lemma_digit_char_val, str_chars,
};

verus! {

/// The per-table part of a table family: the resolution the table stores,
/// whether its rows are compacted, and whether it is an ingest-only staging
/// table that readers never touch.
#[derive(Clone, Copy, Debug, PartialEq, Eq, Structural)]
pub struct TableSpec {
    pub h3_resolution: u8,
    pub is_compacted: bool,
    pub is_intermediate: bool,
}

/// A single table of a family: its basename together with its [`TableSpec`].
#[derive(Clone, Debug, PartialEq, Eq)]
pub struct Table {
    pub basename: String,
    pub table_spec: TableSpec,
}

pub open spec fn base_suffix() -> Seq<char> {
    "_base"@
}

pub open spec fn compacted_suffix() -> Seq<char> {
    "_compacted"@
}

pub open spec fn kind_suffix(compacted: bool) -> Seq<char> {
    if compacted {
        compacted_suffix()
    } else {
        base_suffix()
    }
}

/// A valid basename: a letter followed by at least one more word character.
pub open spec fn valid_basename(b: Seq<char>) -> bool {
    b.len() >= 2 && is_alpha_char(b[0]) && (forall|i: int|
        1 <= i < b.len() ==> is_word_char(b[i]))
}

/// The zero-padded two-digit rendering of a resolution; numbers over two
/// digits keep their full decimal form.
pub open spec fn two_digits(r: int) -> Seq<char> {
    if r <= 99 {
        seq![digit_char(r / 10), digit_char(r % 10)]
    } else {
        dec_str(r)
    }
}

/// The canonical name of a table.
pub open spec fn table_name_spec(b: Seq<char>, r: u8, compacted: bool) -> Seq<char> {
    b + seq!['_'] + two_digits(r as int) + kind_suffix(compacted)
}

/// Parses `s` after its kind suffix was stripped: it must end in an
/// underscore and two digits giving a resolution of at most 15, and what
/// precedes them must be a valid basename.
pub open spec fn parse_tail(s: Seq<char>, compacted: bool) -> Option<(Seq<char>, u8, bool)> {
    if s.len() >= 3 && s[s.len() - 3] == '_' && is_digit_char(s[s.len() - 2]) && is_digit_char(
        s[s.len() - 1],
    ) {
        let r = digit_val(s[s.len() - 2]) * 10 + digit_val(s[s.len() - 1]);
        let b = s.take(s.len() - 3);
        if r <= 15 && valid_basename(b) {
            Some((b, r as u8, compacted))
        } else {
            None
        }
    } else {
        None
    }
}

/// What a table name means: `Some((basename, resolution, compacted))` when
/// the name follows the family grammar, `None` otherwise.
pub open spec fn parse_spec(s: Seq<char>) -> Option<(Seq<char>, u8, bool)> {
    if ends_with(s, compacted_suffix()) {
        parse_tail(s.take(s.len() - compacted_suffix().len()), true)
    } else if ends_with(s, base_suffix()) {
        parse_tail(s.take(s.len() - base_suffix().len()), false)
    } else {
        None
    }
}

impl Table {
    /// Reads a table name back into its parts; `None` for names outside the
    /// grammar.
    pub fn parse(full_table_name: &str) -> (r: Option<Table>)
        ensures
            match r {
                Some(t) => parse_spec(full_table_name@) == Some(
                    (t.basename@, t.table_spec.h3_resolution, t.table_spec.is_compacted),
                ) && !t.table_spec.is_intermediate,
                None => parse_spec(full_table_name@) is None,
            },
    {
        let chars = str_chars(full_table_name);
        let comp = str_chars("_compacted");
        let base = str_chars("_base");
        if chars_end_with(&chars, &comp) {
            Self::parse_stripped(&chars, chars.len() - comp.len(), true)
        } else if chars_end_with(&chars, &base) {
            Self::parse_stripped(&chars, chars.len() - base.len(), false)
        } else {
            None
        }
    }

    fn parse_stripped(chars: &Vec<char>, tail_len: usize, compacted: bool) -> (r: Option<Table>)
        requires
            tail_len <= chars@.len(),
        ensures
            match r {
                Some(t) => parse_tail(chars@.take(tail_len as int), compacted) == Some(
                    (t.basename@, t.table_spec.h3_resolution, t.table_spec.is_compacted),
                ) && !t.table_spec.is_intermediate,
                None => parse_tail(chars@.take(tail_len as int), compacted) is None,
            },
    {
        let ghost s = chars@.take(tail_len as int);
        if tail_len < 3 {
            return None;
        }
        if chars[tail_len - 3] != '_' {
            return None;
        }
        let d1 = chars[tail_len - 2];
        let d0 = chars[tail_len - 1];
        if !is_digit_exec(d1) || !is_digit_exec(d0) {
            return None;
        }
        let r = char_digit_value(d1) * 10 + char_digit_value(d0);
        if r > 15 {
            return None;
        }
        let blen = tail_len - 3;
        let ghost b = s.take(blen as int);
        proof {
            assert(b =~= chars@.subrange(0, blen as int));
        }
        if blen < 2 {
            return None;
        }
        if !is_alpha_exec(chars[0]) {
            return None;
        }
        let mut i: usize = 1;
        while i < blen
            invariant
                tail_len <= chars@.len(),
                s == chars@.take(tail_len as int),
                blen == tail_len - 3,
                2 <= blen <= chars@.len(),
                1 <= i <= blen,
                b == s.take(blen as int),
                b == chars@.subrange(0, blen as int),
                forall|j: int| 1 <= j < i ==> is_word_char(b[j]),
            decreases blen - i,
        {
            if !is_word_exec(chars[i]) {
                proof {
                    assert(s.len() == tail_len);
                    assert(b[i as int] == chars@[i as int]);
                    assert(!valid_basename(b));
                    assert(s.take(s.len() - 3) == b);
                    assert(parse_tail(s, compacted) is None);
                }
                return None;
            }
            i += 1;
        }
        let basename = chars_string(&chars_sub(chars, 0, blen));
        Some(
            Table {
                basename,
                table_spec: TableSpec { h3_resolution: r, is_compacted: compacted, is_intermediate: false },
            },
        )
    }

    /// The canonical name of this table.
    pub fn to_table_name(&self) -> (r: String)
        ensures
            r@ == table_name_spec(
                self.basename@,
                self.table_spec.h3_resolution,
                self.table_spec.is_compacted,
            ),
    {
        let mut out = str_chars(self.basename.as_str());
        out.push('_');
        let res = self.table_spec.h3_resolution;
        if res <= 99 {
            out.push(digit_to_char(res / 10));
            out.push(digit_to_char(res % 10));
        } else {
            let mut digits = crate::text::u64_to_dec_chars(res as u64);
            out.append(&mut digits);
        }
        let mut suffix = if self.table_spec.is_compacted {
            str_chars("_compacted")
        } else {
            str_chars("_base")
        };
        out.append(&mut suffix);
        proof {
            assert(out@ =~= table_name_spec(
                self.basename@,
                self.table_spec.h3_resolution,
                self.table_spec.is_compacted,
            ));
        }
        chars_string(&out)
    }
}

/// Round-trip law: every canonical table name parses back to exactly the
/// parts it was formatted from.
pub proof fn lemma_parse_format_roundtrip(b: Seq<char>, r: u8, compacted: bool)
    requires
        valid_basename(b),
        r <= 15,
    ensures
        parse_spec(table_name_spec(b, r, compacted)) == Some((b, r, compacted)),
{
    reveal_strlit("_base");
    reveal_strlit("_compacted");
    let s = table_name_spec(b, r, compacted);
    let suf = kind_suffix(compacted);
    assert(two_digits(r as int).len() == 2);
    assert(s.len() == b.len() + 3 + suf.len());
    assert(s.subrange(s.len() - suf.len(), s.len() as int) =~= suf);
    if !compacted && ends_with(s, compacted_suffix()) {
        assert(s.subrange(s.len() - 10, s.len() as int)[9] == s[s.len() - 1]);
        assert(s.subrange(s.len() - 5, s.len() as int)[4] == s[s.len() - 1]);
        assert(false);
    }
    let tail = s.take(s.len() - suf.len());
    assert(tail =~= b + seq!['_'] + two_digits(r as int));
    assert(tail.len() == b.len() + 3);
    assert(tail[tail.len() - 3] == '_');
    lemma_digit_char_val(r as int / 10);
    lemma_digit_char_val(r as int % 10);
    assert(tail[tail.len() - 2] == digit_char(r as int / 10));
    assert(tail[tail.len() - 1] == digit_char(r as int % 10));
    assert(digit_val(tail[tail.len() - 2]) * 10 + digit_val(tail[tail.len() - 1]) == r as int);
    assert(tail.take(tail.len() - 3) =~= b);
    assert(parse_tail(tail, compacted) == Some((b, r, compacted)));
}

} // verus!
