//! Verified utilities over character sequences.
//!
//! All string logic of the crate works on `Vec<char>` / `Seq<char>`; `String`
//! and `&str` appear only at the public API boundary, converted through the
//! two trusted wrappers at the top of this module.

use vstd::prelude::*;

verus! {

/// Relies on str::chars: yields exactly the characters of the string in order.
#[verifier::external_body]
pub fn str_chars(s: &str) -> (r: Vec<char>)
    ensures
        r@ == s@,
{
    s.chars().collect()
}

/// Relies on String::from_iter over chars: the resulting string holds exactly
/// the given characters in order.
#[verifier::external_body]
pub fn chars_string(v: &Vec<char>) -> (r: String)
    ensures
        r@ == v@,
{
    v.iter().collect()
}

pub open spec fn is_digit_char(c: char) -> bool {
    48 <= c as u32 && c as u32 <= 57
}

pub open spec fn is_alpha_char(c: char) -> bool {
    (97 <= c as u32 && c as u32 <= 122) || (65 <= c as u32 && c as u32 <= 90)
}

pub open spec fn is_word_char(c: char) -> bool {
    is_alpha_char(c) || is_digit_char(c) || c == '_'
}

/// The decimal digit characters, by value; values outside 0..=9 map to '9'.
pub open spec fn digit_char(d: int) -> char {
    if d == 0 {
        '0'
    } else if d == 1 {
        '1'
    } else if d == 2 {
        '2'
    } else if d == 3 {
        '3'
    } else if d == 4 {
        '4'
    } else if d == 5 {
        '5'
    } else if d == 6 {
        '6'
    } else if d == 7 {
        '7'
    } else if d == 8 {
        '8'
    } else {
        '9'
    }
}

pub open spec fn digit_val(c: char) -> int {
    c as u32 - 48
}

pub proof fn lemma_digit_char_val(d: int)
    requires
        0 <= d < 10,
    ensures
        is_digit_char(digit_char(d)),
        digit_val(digit_char(d)) == d,
{
}

pub fn digit_to_char(d: u8) -> (c: char)
    requires
        d < 10,
    ensures
        c == digit_char(d as int),
{
    match d {
        0 => '0',
        1 => '1',
        2 => '2',
        3 => '3',
        4 => '4',
        5 => '5',
        6 => '6',
        7 => '7',
        8 => '8',
        _ => '9',
    }
}

pub fn char_digit_value(c: char) -> (d: u8)
    requires
        is_digit_char(c),
    ensures
        d as int == digit_val(c),
        d < 10,
{
    ((c as u32) - 48) as u8
}

pub fn is_digit_exec(c: char) -> (r: bool)
    ensures
        r == is_digit_char(c),
{
    let u = c as u32;
    48 <= u && u <= 57
}

pub fn is_alpha_exec(c: char) -> (r: bool)
    ensures
        r == is_alpha_char(c),
{
    let u = c as u32;
    (97 <= u && u <= 122) || (65 <= u && u <= 90)
}

pub fn is_word_exec(c: char) -> (r: bool)
    ensures
        r == is_word_char(c),
{
    is_alpha_exec(c) || is_digit_exec(c) || c == '_'
}

pub open spec fn ends_with(s: Seq<char>, suf: Seq<char>) -> bool {
    suf.len() <= s.len() && s.subrange(s.len() - suf.len(), s.len() as int) == suf
}

pub open spec fn starts_with(s: Seq<char>, pre: Seq<char>) -> bool {
    pre.len() <= s.len() && s.subrange(0, pre.len() as int) == pre
}

pub fn chars_end_with(s: &Vec<char>, suf: &Vec<char>) -> (r: bool)
    ensures
        r == ends_with(s@, suf@),
{
    if suf.len() > s.len() {
        return false;
    }
    let off = s.len() - suf.len();
    let mut i: usize = 0;
    while i < suf.len()
        invariant
            suf.len() <= s.len(),
            off == s.len() - suf.len(),
            i <= suf.len(),
            forall|j: int| 0 <= j < i ==> s@[off + j] == suf@[j],
        decreases suf.len() - i,
    {
        if s[off + i] != suf[i] {
            assert(s@.subrange(s@.len() - suf@.len(), s@.len() as int)[i as int] != suf@[i as int]);
            return false;
        }
        i += 1;
    }
    assert(s@.subrange(s@.len() - suf@.len(), s@.len() as int) =~= suf@);
    true
}

pub fn chars_start_with(s: &Vec<char>, pre: &Vec<char>) -> (r: bool)
    ensures
        r == starts_with(s@, pre@),
{
    if pre.len() > s.len() {
        return false;
    }
    let mut i: usize = 0;
    while i < pre.len()
        invariant
            pre.len() <= s.len(),
            i <= pre.len(),
            forall|j: int| 0 <= j < i ==> s@[j] == pre@[j],
        decreases pre.len() - i,
    {
        if s[i] != pre[i] {
            assert(s@.subrange(0, pre@.len() as int)[i as int] != pre@[i as int]);
            return false;
        }
        i += 1;
    }
    assert(s@.subrange(0, pre@.len() as int) =~= pre@);
    true
}

pub open spec fn matches_at(s: Seq<char>, i: int, pat: Seq<char>) -> bool {
    0 <= i && i + pat.len() <= s.len() && s.subrange(i, i + pat.len()) == pat
}

pub open spec fn contains_seq(s: Seq<char>, pat: Seq<char>) -> bool {
    exists|i: int| matches_at(s, i, pat)
}

pub fn chars_match_at(s: &Vec<char>, i: usize, pat: &Vec<char>) -> (r: bool)
    requires
        i <= s@.len(),
    ensures
        r == matches_at(s@, i as int, pat@),
{
    if pat.len() > s.len() - i {
        return false;
    }
    let mut j: usize = 0;
    while j < pat.len()
        invariant
            i + pat.len() <= s.len(),
            j <= pat.len(),
            forall|k: int| 0 <= k < j ==> s@[i + k] == pat@[k],
        decreases pat.len() - j,
    {
        if s[i + j] != pat[j] {
            assert(s@.subrange(i as int, i + pat@.len())[j as int] != pat@[j as int]);
            return false;
        }
        j += 1;
    }
    assert(s@.subrange(i as int, i + pat@.len()) =~= pat@);
    true
}

pub fn chars_contain(s: &Vec<char>, pat: &Vec<char>) -> (r: bool)
    ensures
        r == contains_seq(s@, pat@),
{
    if pat.len() > s.len() {
        assert(forall|i: int| !matches_at(s@, i, pat@));
        return false;
    }
    if pat.len() == 0 {
        assert(matches_at(s@, 0, pat@)) by {
            assert(s@.subrange(0, 0) =~= pat@);
        }
        return true;
    }
    let mut i: usize = 0;
    while i <= s.len() - pat.len()
        invariant
            0 < pat.len() <= s.len(),
            i <= s.len() - pat.len() + 1,
            forall|j: int| 0 <= j < i ==> !matches_at(s@, j, pat@),
        decreases s.len() - pat.len() - i + 1,
    {
        if chars_match_at(s, i, pat) {
            return true;
        }
        i += 1;
    }
    assert(forall|j: int| !matches_at(s@, j, pat@));
    false
}

/// The parts joined with the separator between consecutive parts.
pub open spec fn join_with(parts: Seq<Seq<char>>, sep: Seq<char>) -> Seq<char>
    decreases parts.len(),
{
    if parts.len() == 0 {
        Seq::empty()
    } else if parts.len() == 1 {
        parts[0]
    } else {
        join_with(parts.drop_last(), sep) + sep + parts.last()
    }
}

pub fn join_chars(parts: &Vec<Vec<char>>, sep: &Vec<char>) -> (r: Vec<char>)
    ensures
        r@ == join_with(parts@.map_values(|p: Vec<char>| p@), sep@),
{
    let ghost model = parts@.map_values(|p: Vec<char>| p@);
    let mut r: Vec<char> = Vec::new();
    let mut i: usize = 0;
    while i < parts.len()
        invariant
            model == parts@.map_values(|p: Vec<char>| p@),
            i <= parts.len(),
            r@ == join_with(model.take(i as int), sep@),
        decreases parts.len() - i,
    {
        if i > 0 {
            r.extend_from_slice(sep.as_slice());
        }
        r.extend_from_slice(parts[i].as_slice());
        proof {
            let pre = model.take(i as int);
            let cur = model.take(i + 1);
            assert(cur.drop_last() =~= pre);
            assert(cur.last() == model[i as int]);
            if i == 0 {
                assert(join_with(cur, sep@) == model[0]);
            }
        }
        i += 1;
    }
    proof {
        assert(model.take(parts.len() as int) =~= model);
    }
    r
}

/// The string with every occurrence of `pat` (leftmost first, without
/// overlap) replaced by `rep`.
pub open spec fn replace_seq(s: Seq<char>, pat: Seq<char>, rep: Seq<char>) -> Seq<char>
    decreases s.len(),
{
    if pat.len() == 0 || s.len() < pat.len() {
        s
    } else if matches_at(s, 0, pat) {
        rep + replace_seq(s.skip(pat.len() as int), pat, rep)
    } else {
        seq![s[0]] + replace_seq(s.skip(1), pat, rep)
    }
}

proof fn lemma_matches_at_skip(s: Seq<char>, i: int, pat: Seq<char>)
    requires
        0 <= i <= s.len(),
    ensures
        matches_at(s, i, pat) == matches_at(s.skip(i), 0, pat),
{
    if i + pat.len() <= s.len() {
        assert(s.skip(i).subrange(0, pat.len() as int) =~= s.subrange(i, i + pat.len()));
    }
}

pub fn chars_replace(s: &Vec<char>, pat: &Vec<char>, rep: &Vec<char>) -> (r: Vec<char>)
    requires
        pat@.len() > 0,
    ensures
        r@ == replace_seq(s@, pat@, rep@),
{
    let mut r: Vec<char> = Vec::new();
    let mut i: usize = 0;
    proof {
        assert(s@.skip(0) =~= s@);
        assert(Seq::<char>::empty() + replace_seq(s@, pat@, rep@) =~= replace_seq(
            s@,
            pat@,
            rep@,
        ));
    }
    while s.len() - i >= pat.len()
        invariant
            pat@.len() > 0,
            i <= s.len(),
            replace_seq(s@, pat@, rep@) == r@ + replace_seq(s@.skip(i as int), pat@, rep@),
        decreases s.len() - i,
    {
        let ghost tail = s@.skip(i as int);
        if chars_match_at(s, i, pat) {
            proof {
                lemma_matches_at_skip(s@, i as int, pat@);
                assert(tail.skip(pat@.len() as int) =~= s@.skip(i + pat@.len()));
            }
            r.extend_from_slice(rep.as_slice());
            i += pat.len();
        } else {
            proof {
                lemma_matches_at_skip(s@, i as int, pat@);
                assert(tail.skip(1) =~= s@.skip(i + 1));
                assert(tail[0] == s@[i as int]);
            }
            r.push(s[i]);
            i += 1;
        }
    }
    let ghost tail = s@.skip(i as int);
    assert(replace_seq(tail, pat@, rep@) == tail);
    while i < s.len()
        invariant
            i <= s.len(),
            replace_seq(s@, pat@, rep@) == r@ + s@.skip(i as int),
        decreases s.len() - i,
    {
        proof {
            assert(s@.skip(i as int) =~= seq![s@[i as int]] + s@.skip(i + 1));
        }
        r.push(s[i]);
        i += 1;
    }
    proof {
        assert(s@.skip(i as int) =~= Seq::<char>::empty());
        assert(r@ =~= r@ + Seq::<char>::empty());
    }
    r
}

/// The decimal digits of a non-negative number, most significant first;
/// empty for zero.
pub open spec fn dec_rec(n: int) -> Seq<char>
    decreases n,
{
    if n <= 0 {
        Seq::empty()
    } else {
        dec_rec(n / 10) + seq![digit_char(n % 10)]
    }
}

/// The usual decimal rendering of a non-negative number.
pub open spec fn dec_str(n: int) -> Seq<char> {
    if n == 0 {
        seq!['0']
    } else {
        dec_rec(n)
    }
}

pub fn u64_to_dec_chars(n: u64) -> (r: Vec<char>)
    ensures
        r@ == dec_str(n as int),
{
    if n == 0 {
        let mut r: Vec<char> = Vec::new();
        r.push('0');
        assert(r@ =~= seq!['0']);
        return r;
    }
    let mut low_first: Vec<char> = Vec::new();
    let mut m = n;
    while m > 0
        invariant
            dec_rec(n as int) == dec_rec(m as int) + low_first@.reverse(),
        decreases m,
    {
        let d = (m % 10) as u8;
        let c = digit_to_char(d);
        proof {
            assert(low_first@.push(c).reverse() =~= seq![c] + low_first@.reverse());
            assert(dec_rec(m as int) == dec_rec(m as int / 10) + seq![digit_char(m as int % 10)]);
            assert(dec_rec(m as int / 10) + (seq![c] + low_first@.reverse()) =~= (dec_rec(
                m as int / 10,
            ) + seq![c]) + low_first@.reverse());
        }
        low_first.push(c);
        m = m / 10;
    }
    let mut r: Vec<char> = Vec::new();
    let mut j = low_first.len();
    while j > 0
        invariant
            j <= low_first.len(),
            r@ == low_first@.subrange(j as int, low_first@.len() as int).reverse(),
        decreases j,
    {
        j -= 1;
        proof {
            assert(low_first@.subrange(j as int, low_first@.len() as int).reverse() =~= low_first@
                .subrange(j + 1, low_first@.len() as int).reverse().push(low_first@[j as int]));
        }
        r.push(low_first[j]);
    }
    proof {
        assert(low_first@.subrange(0, low_first@.len() as int) =~= low_first@);
    }
    r
}

/// The sequence with later repetitions of a value removed: each value keeps
/// its first occurrence only.
pub open spec fn dedup_first(s: Seq<u64>) -> Seq<u64>
    decreases s.len(),
{
    if s.len() == 0 {
        s
    } else {
        let pre = dedup_first(s.drop_last());
        if pre.contains(s.last()) {
            pre
        } else {
            pre.push(s.last())
        }
    }
}

pub fn chars_sub(s: &Vec<char>, from: usize, to: usize) -> (r: Vec<char>)
    requires
        from <= to <= s@.len(),
    ensures
        r@ == s@.subrange(from as int, to as int),
{
    let mut r: Vec<char> = Vec::new();
    let mut i = from;
    while i < to
        invariant
            from <= i <= to <= s@.len(),
            r@ == s@.subrange(from as int, i as int),
        decreases to - i,
    {
        proof {
            assert(s@.subrange(from as int, i + 1) =~= s@.subrange(from as int, i as int).push(
                s@[i as int],
            ));
        }
        r.push(s[i]);
        i += 1;
    }
    r
}

/// The position of the first occurrence of a character, or the length of
/// the sequence when it does not occur.
pub open spec fn first_at(s: Seq<char>, c: char) -> int
    decreases s.len(),
{
    if s.len() == 0 {
        0
    } else if s[0] == c {
        0
    } else {
        1 + first_at(s.skip(1), c)
    }
}

pub proof fn lemma_first_at(s: Seq<char>, c: char)
    ensures
        0 <= first_at(s, c) <= s.len(),
        first_at(s, c) < s.len() ==> s[first_at(s, c)] == c,
        forall|j: int| 0 <= j < first_at(s, c) ==> s[j] != c,
    decreases s.len(),
{
    if s.len() > 0 && s[0] != c {
        lemma_first_at(s.skip(1), c);
        assert forall|j: int| 0 <= j < first_at(s, c) implies s[j] != c by {
            if j > 0 {
                assert(s.skip(1)[j - 1] == s[j]);
            }
        }
        if first_at(s, c) < s.len() {
            assert(s.skip(1)[first_at(s, c) - 1] == s[first_at(s, c)]);
        }
    }
}

/// Finds the first occurrence of a character.
pub fn chars_find(s: &Vec<char>, c: char) -> (r: Option<usize>)
    ensures
        match r {
            Some(i) => i as int == first_at(s@, c) && i < s@.len(),
            None => first_at(s@, c) == s@.len(),
        },
{
    proof {
        lemma_first_at(s@, c);
    }
    let mut i: usize = 0;
    while i < s.len()
        invariant
            i <= s@.len(),
            0 <= first_at(s@, c) <= s@.len(),
            first_at(s@, c) < s@.len() ==> s@[first_at(s@, c)] == c,
            forall|j: int| 0 <= j < first_at(s@, c) ==> s@[j] != c,
            forall|j: int| 0 <= j < i ==> s@[j] != c,
        decreases s@.len() - i,
    {
        if s[i] == c {
            proof {
                if (i as int) < first_at(s@, c) {
                    assert(s@[i as int] != c);
                }
                if first_at(s@, c) < (i as int) {
                    assert(s@[first_at(s@, c)] != c);
                }
            }
            return Some(i);
        }
        i += 1;
    }
    proof {
        if first_at(s@, c) < s@.len() {
            assert(s@[first_at(s@, c)] != c);
        }
    }
    None
}

/// The segments of a sequence between occurrences of the separator; a
/// sequence without the separator is one segment, and a separator at the
/// edge yields an empty segment there.
pub open spec fn split_char(s: Seq<char>, sep: char) -> Seq<Seq<char>>
    decreases s.len(),
{
    if s.len() == 0 {
        seq![Seq::<char>::empty()]
    } else if s[0] == sep {
        seq![Seq::<char>::empty()] + split_char(s.skip(1), sep)
    } else {
        let rest = split_char(s.skip(1), sep);
        seq![seq![s[0]] + rest[0]] + rest.skip(1)
    }
}

pub proof fn lemma_split_char_len(s: Seq<char>, sep: char)
    ensures
        split_char(s, sep).len() >= 1,
    decreases s.len(),
{
    if s.len() > 0 {
        lemma_split_char_len(s.skip(1), sep);
    }
}

/// Splitting takes the prefix before the first separator as the first
/// segment and recurses after it.
pub proof fn lemma_split_at_first(s: Seq<char>, sep: char, i: int)
    requires
        0 <= i <= s.len(),
        forall|j: int| 0 <= j < i ==> s[j] != sep,
        i < s.len() ==> s[i] == sep,
    ensures
        i == s.len() ==> split_char(s, sep) == seq![s],
        i < s.len() ==> split_char(s, sep) == seq![s.take(i)] + split_char(s.skip(i + 1), sep),
    decreases i,
{
    lemma_split_char_len(s.skip(1), sep);
    if i == 0 {
        if s.len() == 0 {
            assert(s =~= Seq::<char>::empty());
            assert(split_char(s, sep) =~= seq![s]);
        } else {
            assert(s.take(0) =~= Seq::<char>::empty());
            assert(split_char(s, sep) =~= seq![s.take(0)] + split_char(s.skip(1), sep));
        }
    } else {
        assert(s[0] != sep);
        let tail = s.skip(1);
        assert forall|j: int| 0 <= j < i - 1 implies tail[j] != sep by {
            assert(tail[j] == s[j + 1]);
        }
        if i < s.len() {
            assert(tail[i - 1] == s[i]);
        }
        lemma_split_at_first(tail, sep, i - 1);
        let rest = split_char(tail, sep);
        if i == s.len() {
            assert(rest == seq![tail]);
            assert(seq![s[0]] + rest[0] =~= s);
            assert(rest.skip(1) =~= Seq::<Seq<char>>::empty());
            let combined = seq![seq![s[0]] + rest[0]] + rest.skip(1);
            assert(split_char(s, sep) == combined);
            assert(combined.len() == 1);
            assert(combined[0] == seq![s[0]] + rest[0]);
            assert(combined =~= seq![s]);
        } else {
            assert(rest == seq![tail.take(i - 1)] + split_char(tail.skip(i), sep));
            assert(rest[0] == tail.take(i - 1));
            assert(seq![s[0]] + tail.take(i - 1) =~= s.take(i));
            assert(rest.skip(1) =~= split_char(tail.skip(i), sep));
            assert(tail.skip(i) =~= s.skip(i + 1));
            assert(split_char(s, sep) =~= seq![s.take(i)] + split_char(s.skip(i + 1), sep));
        }
    }
}

/// Splits a character vector at every occurrence of the separator.
pub fn chars_split(s: &Vec<char>, sep: char) -> (r: Vec<Vec<char>>)
    ensures
        r@.map_values(|p: Vec<char>| p@) == split_char(s@, sep),
        r@.len() >= 1,
{
    let mut r: Vec<Vec<char>> = Vec::new();
    let mut pos: usize = 0;
    proof {
        assert(s@.skip(0) =~= s@);
        assert(r@.map_values(|p: Vec<char>| p@) =~= Seq::<Seq<char>>::empty());
        assert(Seq::<Seq<char>>::empty() + split_char(s@, sep) =~= split_char(s@, sep));
    }
    loop
        invariant
            pos <= s@.len(),
            split_char(s@, sep) == r@.map_values(|p: Vec<char>| p@) + split_char(
                s@.skip(pos as int),
                sep,
            ),
        ensures
            pos <= s@.len(),
            split_char(s@, sep) == r@.map_values(|p: Vec<char>| p@) + split_char(
                s@.skip(pos as int),
                sep,
            ),
            forall|k: int| pos <= k < s@.len() ==> s@[k] != sep,
        decreases s@.len() - pos,
    {
        let mut j = pos;
        while j < s.len() && s[j] != sep
            invariant
                pos <= j <= s@.len(),
                forall|k: int| pos <= k < j ==> s@[k] != sep,
            decreases s@.len() - j,
        {
            j += 1;
        }
        if j >= s.len() {
            break;
        }
        let ghost tail = s@.skip(pos as int);
        let ghost done = r@.map_values(|p: Vec<char>| p@);
        proof {
            assert forall|k: int| 0 <= k < j - pos implies tail[k] != sep by {
                assert(tail[k] == s@[pos + k]);
            }
            assert(tail[j - pos] == s@[j as int]);
            lemma_split_at_first(tail, sep, j - pos);
            assert(tail.take(j - pos) =~= s@.subrange(pos as int, j as int));
        }
        let seg = chars_sub(s, pos, j);
        r.push(seg);
        proof {
            assert(r@.map_values(|p: Vec<char>| p@) =~= done.push(s@.subrange(
                pos as int,
                j as int,
            )));
            assert(tail.skip(j - pos + 1) =~= s@.skip(j + 1));
            assert(split_char(s@, sep) =~= r@.map_values(|p: Vec<char>| p@) + split_char(
                s@.skip(j + 1),
                sep,
            ));
        }
        pos = j + 1;
    }
    let ghost tail = s@.skip(pos as int);
    let ghost done = r@.map_values(|p: Vec<char>| p@);
    proof {
        assert forall|k: int| 0 <= k < tail.len() implies tail[k] != sep by {
            assert(tail[k] == s@[pos + k]);
        }
        lemma_split_at_first(tail, sep, tail.len() as int);
        assert(tail =~= s@.subrange(pos as int, s@.len() as int));
    }
    let seg = chars_sub(s, pos, s.len());
    r.push(seg);
    proof {
        assert(r@.map_values(|p: Vec<char>| p@) =~= done.push(tail));
        assert(r@.map_values(|p: Vec<char>| p@) =~= split_char(s@, sep));
    }
    r
}

pub fn chars_eq(a: &Vec<char>, b: &Vec<char>) -> (r: bool)
    ensures
        r == (a@ == b@),
{
    if a.len() != b.len() {
        return false;
    }
    let mut i: usize = 0;
    while i < a.len()
        invariant
            a@.len() == b@.len(),
            i <= a@.len(),
            forall|j: int| 0 <= j < i ==> a@[j] == b@[j],
        decreases a@.len() - i,
    {
        if a[i] != b[i] {
            return false;
        }
        i += 1;
    }
    proof {
        assert(a@ =~= b@);
    }
    true
}

pub fn u64_vec_contains(v: &Vec<u64>, x: u64) -> (r: bool)
    ensures
        r == v@.contains(x),
{
    let mut i: usize = 0;
    while i < v.len()
        invariant
            i <= v.len(),
            forall|j: int| 0 <= j < i ==> v@[j] != x,
        decreases v.len() - i,
    {
        if v[i] == x {
            return true;
        }
        i += 1;
    }
    false
}

} // verus!
