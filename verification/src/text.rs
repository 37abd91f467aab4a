//! Small string utilities: splitting on a delimiter, joining, prefix tests,
//! and thin trusted wrappers over the two `std` string operations that vstd
//! leaves unspecified.

use vstd::prelude::*;

verus! {

/// Relies on std's `==` for string slices: true exactly when the two slices
/// hold the same characters.
#[verifier::external_body]
pub fn str_eq(a: &str, b: &str) -> (r: bool)
    ensures
        r == (a@ == b@),
{
    a == b
}

/// Relies on std's `String::push`: appends one character to the string.
#[verifier::external_body]
pub fn push_char(s: &mut String, c: char)
    ensures
        final(s)@ == old(s)@.push(c),
{
    s.push(c)
}

/// The fields obtained by splitting `s` at every occurrence of `sep`.
/// A string with no separator yields one field; each separator opens a new
/// (possibly empty) field.
pub open spec fn split_chars(s: Seq<char>, sep: char) -> Seq<Seq<char>>
    decreases s.len(),
{
    if s.len() == 0 {
        seq![Seq::<char>::empty()]
    } else if s.last() == sep {
        split_chars(s.drop_last(), sep).push(Seq::<char>::empty())
    } else {
        let r = split_chars(s.drop_last(), sep);
        r.update(r.len() - 1, r.last().push(s.last()))
    }
}

/// Splitting always yields at least one field.
pub proof fn lemma_split_chars_len(s: Seq<char>, sep: char)
    ensures
        split_chars(s, sep).len() >= 1,
    decreases s.len(),
{
    if s.len() > 0 {
        lemma_split_chars_len(s.drop_last(), sep);
    }
}

/// Splits `s` at every occurrence of `sep`.
pub fn split_str(s: &str, sep: char) -> (parts: Vec<String>)
    ensures
        parts@.map_values(|p: String| p@) == split_chars(s@, sep),
        parts@.len() >= 1,
{
    let n = s.unicode_len();
    let mut parts: Vec<String> = Vec::new();
    let mut cur = String::new();
    let mut i: usize = 0;
    while i < n
        invariant
            i <= n,
            n == s@.len(),
            split_chars(s@.take(i as int), sep) == parts@.map_values(|p: String| p@).push(cur@),
        decreases n - i,
    {
        let c = s.get_char(i);
        let ghost old_parts = parts@;
        let ghost old_cur = cur@;
        proof {
            assert(s@.take(i + 1 as int).drop_last() =~= s@.take(i as int));
            assert(s@.take(i + 1 as int).last() == s@[i as int]);
        }
        if c == sep {
            let done = cur;
            cur = String::new();
            parts.push(done);
            proof {
                assert(parts@.map_values(|p: String| p@) =~= old_parts.map_values(
                    |p: String| p@,
                ).push(old_cur));
                assert(split_chars(s@.take(i + 1 as int), sep) == parts@.map_values(
                    |p: String| p@,
                ).push(cur@));
            }
        } else {
            push_char(&mut cur, c);
            proof {
                let prev = old_parts.map_values(|p: String| p@);
                lemma_split_chars_len(s@.take(i as int), sep);
                assert(split_chars(s@.take(i + 1 as int), sep) =~= prev.push(cur@));
            }
        }
        i = i + 1;
    }
    proof {
        assert(s@.take(n as int) =~= s@);
    }
    let ghost old_parts = parts@;
    let ghost old_cur = cur@;
    parts.push(cur);
    proof {
        assert(parts@.map_values(|p: String| p@) =~= old_parts.map_values(|p: String| p@).push(
            old_cur,
        ));
    }
    parts
}

/// The concatenation, with nothing in between, of the fields of `parts` from
/// position `from` on.
pub open spec fn concat_parts(parts: Seq<Seq<char>>, from: int) -> Seq<char>
    recommends
        0 <= from,
    decreases parts.len() - from,
{
    if from < 0 || from >= parts.len() {
        Seq::<char>::empty()
    } else {
        parts[from] + concat_parts(parts, from + 1)
    }
}

/// Joins the fields of `parts` from position `from` on, without a delimiter.
pub fn join_from(parts: &Vec<String>, from: usize) -> (r: String)
    ensures
        r@ == concat_parts(parts@.map_values(|p: String| p@), from as int),
{
    let ghost views = parts@.map_values(|p: String| p@);
    let mut out = String::new();
    let mut i: usize = from;
    while i < parts.len()
        invariant
            from <= i,
            i <= parts@.len() || i == from,
            views == parts@.map_values(|p: String| p@),
            out@ == concat_parts_upto(views, from as int, i as int),
        decreases parts@.len() - i,
    {
        out.append(parts[i].as_str());
        i = i + 1;
    }
    proof {
        if from <= parts@.len() {
            lemma_concat_parts_upto_all(views, from as int);
        } else {
            assert(out@ =~= concat_parts(views, from as int));
        }
    }
    out
}

/// The concatenation of the fields from `from` (inclusive) up to `upto`
/// (exclusive).
pub open spec fn concat_parts_upto(parts: Seq<Seq<char>>, from: int, upto: int) -> Seq<char>
    decreases upto - from,
{
    if from >= upto {
        Seq::<char>::empty()
    } else {
        concat_parts_upto(parts, from, upto - 1) + parts[upto - 1]
    }
}

proof fn lemma_concat_parts_upto_all(parts: Seq<Seq<char>>, from: int)
    requires
        0 <= from,
    ensures
        concat_parts_upto(parts, from, parts.len() as int) == concat_parts(parts, from),
    decreases parts.len() - from,
{
    if from < parts.len() {
        lemma_concat_parts_split(parts, from, parts.len() as int);
    } else {
        assert(concat_parts_upto(parts, from, parts.len() as int) =~= concat_parts(parts, from));
    }
}

/// Concatenating up to `upto` and from `upto` on gives the whole tail.
proof fn lemma_concat_parts_split(parts: Seq<Seq<char>>, from: int, upto: int)
    requires
        0 <= from <= upto <= parts.len(),
    ensures
        concat_parts_upto(parts, from, upto) + concat_parts(parts, upto) =~= concat_parts(
            parts,
            from,
        ),
    decreases upto - from,
{
    if from < upto {
        lemma_concat_parts_split(parts, from + 1, upto);
        assert(concat_parts_upto(parts, from, upto) =~= parts[from] + concat_parts_upto(
            parts,
            from + 1,
            upto,
        )) by {
            lemma_concat_parts_upto_head(parts, from, upto);
        }
    } else {
        assert(concat_parts_upto(parts, from, upto) =~= Seq::<char>::empty());
    }
}

/// Peeling the first field off a bounded concatenation.
proof fn lemma_concat_parts_upto_head(parts: Seq<Seq<char>>, from: int, upto: int)
    requires
        from < upto,
    ensures
        concat_parts_upto(parts, from, upto) =~= parts[from] + concat_parts_upto(
            parts,
            from + 1,
            upto,
        ),
    decreases upto - from,
{
    if from + 1 < upto {
        lemma_concat_parts_upto_head(parts, from, upto - 1);
        assert(concat_parts_upto(parts, from, upto) == concat_parts_upto(parts, from, upto - 1)
            + parts[upto - 1]);
        assert(concat_parts_upto(parts, from + 1, upto) == concat_parts_upto(
            parts,
            from + 1,
            upto - 1,
        ) + parts[upto - 1]);
        assert(concat_parts_upto(parts, from, upto) =~= parts[from] + concat_parts_upto(
            parts,
            from + 1,
            upto,
        ));
    } else {
        assert(concat_parts_upto(parts, from, from) =~= Seq::<char>::empty());
        assert(concat_parts_upto(parts, from + 1, upto) =~= Seq::<char>::empty());
        assert(concat_parts_upto(parts, from, upto) =~= parts[from] + concat_parts_upto(
            parts,
            from + 1,
            upto,
        ));
    }
}

/// Whether `s` holds the character `c` anywhere.
pub fn contains_char(s: &str, c: char) -> (r: bool)
    ensures
        r == (exists|i: int| 0 <= i < s@.len() && s@[i] == c),
{
    let n = s.unicode_len();
    let mut i: usize = 0;
    while i < n
        invariant
            i <= n,
            n == s@.len(),
            forall|k: int| 0 <= k < i ==> s@[k] != c,
        decreases n - i,
    {
        if s.get_char(i) == c {
            return true;
        }
        i = i + 1;
    }
    false
}

/// Whether one of the strings of `names` holds the same characters as `s`.
pub fn contains_str(names: &Vec<String>, s: &str) -> (r: bool)
    ensures
        r == (exists|k: int| 0 <= k < names@.len() && names@[k]@ == s@),
{
    let mut k: usize = 0;
    while k < names.len()
        invariant
            k <= names@.len(),
            forall|j: int| 0 <= j < k ==> names@[j]@ != s@,
        decreases names@.len() - k,
    {
        if str_eq(names[k].as_str(), s) {
            return true;
        }
        k = k + 1;
    }
    false
}

/// A string without the separator is a single field.
pub proof fn lemma_split_no_sep(x: Seq<char>, sep: char)
    requires
        forall|i: int| 0 <= i < x.len() ==> x[i] != sep,
    ensures
        split_chars(x, sep) == seq![x],
    decreases x.len(),
{
    if x.len() > 0 {
        lemma_split_no_sep(x.drop_last(), sep);
        assert(x.drop_last().push(x.last()) =~= x);
        assert(split_chars(x, sep) =~= seq![x]);
    } else {
        assert(x =~= Seq::<char>::empty());
        assert(split_chars(x, sep) =~= seq![x]);
    }
}

/// Splitting distributes over a separator between two halves.
pub proof fn lemma_split_concat(s1: Seq<char>, s2: Seq<char>, sep: char)
    ensures
        split_chars(s1 + seq![sep] + s2, sep) == split_chars(s1, sep) + split_chars(s2, sep),
    decreases s2.len(),
{
    let t = s1 + seq![sep] + s2;
    if s2.len() == 0 {
        assert(t =~= s1 + seq![sep]);
        assert(t.last() == sep);
        assert(t.drop_last() =~= s1);
        assert(split_chars(t, sep) =~= split_chars(s1, sep) + split_chars(s2, sep));
    } else {
        lemma_split_concat(s1, s2.drop_last(), sep);
        assert(t.last() == s2.last());
        assert(t.drop_last() =~= s1 + seq![sep] + s2.drop_last());
        lemma_split_chars_len(s2.drop_last(), sep);
        if s2.last() == sep {
            assert(split_chars(t, sep) =~= split_chars(s1, sep) + split_chars(s2, sep));
        } else {
            let r = split_chars(s1, sep) + split_chars(s2.drop_last(), sep);
            let r2 = split_chars(s2.drop_last(), sep);
            assert(r.last() == r2.last());
            assert(split_chars(t, sep) == r.update(r.len() - 1, r.last().push(s2.last())));
            assert(split_chars(s2, sep) == r2.update(r2.len() - 1, r2.last().push(s2.last())));
            assert(r.update(r.len() - 1, r.last().push(s2.last())) =~= split_chars(s1, sep)
                + r2.update(r2.len() - 1, r2.last().push(s2.last())));
        }
    }
}

/// Whether `p` is a prefix of `s`.
pub open spec fn is_prefix_of(p: Seq<char>, s: Seq<char>) -> bool {
    p.len() <= s.len() && s.take(p.len() as int) == p
}

/// Tests whether `prefix` starts `s`, character by character.
pub fn has_prefix(s: &str, prefix: &str) -> (r: bool)
    ensures
        r == is_prefix_of(prefix@, s@),
{
    let np = prefix.unicode_len();
    let ns = s.unicode_len();
    if np > ns {
        proof {
            assert(!is_prefix_of(prefix@, s@));
        }
        return false;
    }
    let mut j: usize = 0;
    while j < np
        invariant
            j <= np,
            np == prefix@.len(),
            ns == s@.len(),
            np <= ns,
            forall|k: int| 0 <= k < j ==> s@[k] == prefix@[k],
        decreases np - j,
    {
        if s.get_char(j) != prefix.get_char(j) {
            proof {
                assert(s@.take(np as int)[j as int] != prefix@[j as int]);
            }
            return false;
        }
        j = j + 1;
    }
    proof {
        assert(s@.take(np as int) =~= prefix@);
    }
    true
}

} // verus!
