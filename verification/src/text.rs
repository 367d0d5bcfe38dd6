//! Text handling on character sequences: substring search, removal of every
//! occurrence of a pattern, splitting on a separator, and lexicographic order.
//!
//! Every operation works on the characters of a string (`Seq<char>` in
//! specifications, `Vec<char>` in executable code) and is proved against a
//! recursive definition.
use vstd::prelude::*;
use vstd::relations::{sorted_by, total_ordering};

verus! {

broadcast use vstd::seq_lib::group_seq_properties;

// ----------------------------------------------------------------------------
// Conversions between strings and character vectors
// ----------------------------------------------------------------------------

/// The characters of `s`, in order.
pub fn chars_of(s: &str) -> (v: Vec<char>)
    ensures
        v@ == s@,
{
    broadcast use vstd::string::group_string_axioms;

    let mut v: Vec<char> = Vec::new();
    for c in it: s.chars()
        invariant
            v@ == it.seq().take(it.index() as int),
            it.seq() == s@,
    {
        v.push(c);
    }
    v
}

/// Appends one character to a string with `String::push`. The contract
/// claims that the string's characters afterwards are those it had, followed
/// by `c`.
#[verifier::external_body]
fn push_char(s: &mut String, c: char)
    ensures
        final(s)@ == old(s)@.push(c),
{
    s.push(c)
}

/// The string made of the characters of `v`, in order.
pub fn string_of(v: &Vec<char>) -> (s: String)
    ensures
        s@ == v@,
{
    let mut s = String::new();
    for i in 0..v.len()
        invariant
            s@ == v@.take(i as int),
    {
        push_char(&mut s, v[i]);
        assert(v@.take(i + 1) =~= v@.take(i as int).push(v@[i as int]));
    }
    assert(v@.take(v.len() as int) =~= v@);
    s
}

/// Appends the characters of `s` to `v`.
pub fn append_str(v: &mut Vec<char>, s: &str)
    ensures
        final(v)@ == old(v)@ + s@,
{
    let mut t = chars_of(s);
    v.append(&mut t);
}

/// Whether `a` and `b` hold the same characters.
pub fn chars_eq(a: &Vec<char>, b: &Vec<char>) -> (r: bool)
    ensures
        r == (a@ == b@),
{
    if a.len() != b.len() {
        return false;
    }
    let mut i: usize = 0;
    while i < a.len()
        invariant
            a.len() == b.len(),
            i <= a.len(),
            forall|j: int| 0 <= j < i ==> a@[j] == b@[j],
        decreases a.len() - i,
    {
        if a[i] != b[i] {
            return false;
        }
        i = i + 1;
    }
    assert(a@ =~= b@);
    true
}

/// Whether the string `a` is the string `b`.
pub fn str_eq(a: &str, b: &str) -> (r: bool)
    ensures
        r == (a@ == b@),
{
    chars_eq(&chars_of(a), &chars_of(b))
}

// ----------------------------------------------------------------------------
// Substring search
// ----------------------------------------------------------------------------

/// `pat` occurs in `s` starting at position `i`.
pub open spec fn occurs_at(s: Seq<char>, pat: Seq<char>, i: int) -> bool {
    &&& 0 <= i
    &&& i + pat.len() <= s.len()
    &&& s.subrange(i, i + pat.len()) == pat
}

/// `pat` occurs somewhere in `s` (the empty pattern occurs in every text).
pub open spec fn has_sub(s: Seq<char>, pat: Seq<char>) -> bool {
    exists|i: int| occurs_at(s, pat, i)
}

fn matches_at(s: &Vec<char>, pat: &Vec<char>, i: usize) -> (r: bool)
    requires
        i + pat.len() <= s.len(),
    ensures
        r == occurs_at(s@, pat@, i as int),
{
    let mut k: usize = 0;
    while k < pat.len()
        invariant
            k <= pat.len(),
            i + pat.len() <= s.len(),
            forall|j: int| 0 <= j < k ==> s@[i + j] == pat@[j],
        decreases pat.len() - k,
    {
        if s[i + k] != pat[k] {
            assert(s@.subrange(i as int, i + pat.len())[k as int] != pat@[k as int]);
            return false;
        }
        k = k + 1;
    }
    assert(s@.subrange(i as int, i + pat.len()) =~= pat@);
    true
}

/// Whether `pat` occurs in `s`.
pub fn contains_chars(s: &Vec<char>, pat: &Vec<char>) -> (r: bool)
    ensures
        r == has_sub(s@, pat@),
{
    if pat.len() > s.len() {
        return false;
    }
    let last = s.len() - pat.len();
    let mut i: usize = 0;
    loop
        invariant
            last == s.len() - pat.len(),
            pat.len() <= s.len(),
            i <= last,
            forall|j: int| 0 <= j < i ==> !occurs_at(s@, pat@, j),
        decreases last - i,
    {
        if matches_at(s, pat, i) {
            assert(occurs_at(s@, pat@, i as int));
            return true;
        }
        if i == last {
            return false;
        }
        i = i + 1;
    }
}

/// Whether the string `pat` occurs in the characters `s`.
pub fn contains_str(s: &Vec<char>, pat: &str) -> (r: bool)
    ensures
        r == has_sub(s@, pat@),
{
    let p = chars_of(pat);
    contains_chars(s, &p)
}

// ----------------------------------------------------------------------------
// Removing every occurrence of a pattern
// ----------------------------------------------------------------------------

/// `s` with every occurrence of `pat` removed, scanning from the left and
/// taking the leftmost match each time; the text that follows a match is
/// searched again, the removed text is not.
pub open spec fn remove_all(s: Seq<char>, pat: Seq<char>) -> Seq<char>
    decreases s.len(),
{
    if pat.len() == 0 || s.len() < pat.len() {
        s
    } else if s.take(pat.len() as int) == pat {
        remove_all(s.skip(pat.len() as int), pat)
    } else {
        seq![s[0]] + remove_all(s.skip(1), pat)
    }
}

/// `s` with every occurrence of the non-empty pattern `pat` removed.
pub fn remove_all_chars(s: &Vec<char>, pat: &Vec<char>) -> (r: Vec<char>)
    requires
        pat.len() > 0,
    ensures
        r@ == remove_all(s@, pat@),
{
    let n = s.len();
    let m = pat.len();
    let mut out: Vec<char> = Vec::new();
    let mut i: usize = 0;
    assert(s@.skip(0) =~= s@);
    while i < n
        invariant
            i <= n,
            n == s.len(),
            m == pat.len(),
            m > 0,
            remove_all(s@, pat@) == out@ + remove_all(s@.skip(i as int), pat@),
        decreases n - i,
    {
        let ghost rest = s@.skip(i as int);
        if n - i >= m && matches_at(s, pat, i) {
            assert(rest.take(m as int) =~= s@.subrange(i as int, i + m));
            assert(rest.skip(m as int) =~= s@.skip(i + m));
            i = i + m;
        } else {
            if n - i >= m {
                assert(rest.take(m as int) =~= s@.subrange(i as int, i + m));
            }
            assert(rest.skip(1) =~= s@.skip(i + 1));
            assert(rest[0] == s@[i as int]);
            let c = s[i];
            out.push(c);
            assert(out@ + remove_all(s@.skip(i + 1), pat@) =~= old_out_plus(
                out@.drop_last(),
                c,
                remove_all(s@.skip(i + 1), pat@),
            ));
            i = i + 1;
        }
    }
    assert(s@.skip(n as int) =~= Seq::<char>::empty());
    assert(out@ + Seq::<char>::empty() =~= out@);
    out
}

spec fn old_out_plus(out: Seq<char>, c: char, rest: Seq<char>) -> Seq<char> {
    out + (seq![c] + rest)
}

/// The characters `s` with every occurrence of the non-empty string `pat`
/// removed.
pub fn remove_str(s: &Vec<char>, pat: &str) -> (r: Vec<char>)
    requires
        pat@.len() > 0,
    ensures
        r@ == remove_all(s@, pat@),
{
    let p = chars_of(pat);
    remove_all_chars(s, &p)
}

// ----------------------------------------------------------------------------
// Splitting on a separator
// ----------------------------------------------------------------------------

/// The pieces of `s` between occurrences of the separator `c`, in order.
/// There is always one piece more than there are separators, so the empty
/// text has one empty piece, and two adjacent separators give an empty piece.
pub open spec fn split_on(s: Seq<char>, c: char) -> Seq<Seq<char>>
    decreases s.len(),
{
    if s.len() == 0 {
        seq![Seq::empty()]
    } else {
        let init = split_on(s.drop_last(), c);
        if s.last() == c {
            init.push(Seq::empty())
        } else {
            init.update(init.len() - 1, init.last().push(s.last()))
        }
    }
}

/// There is at least one piece.
pub proof fn lemma_split_on_nonempty(s: Seq<char>, c: char)
    ensures
        split_on(s, c).len() >= 1,
    decreases s.len(),
{
    if s.len() > 0 {
        lemma_split_on_nonempty(s.drop_last(), c);
    }
}

/// Appending text that holds no separator lengthens the last piece by it.
pub proof fn lemma_split_on_append_plain(p: Seq<char>, b: Seq<char>, c: char)
    requires
        forall|i: int| 0 <= i < b.len() ==> b[i] != c,
    ensures
        split_on(p + b, c) == split_on(p, c).update(
            split_on(p, c).len() - 1,
            split_on(p, c).last() + b,
        ),
    decreases b.len(),
{
    lemma_split_on_nonempty(p, c);
    let sp = split_on(p, c);
    if b.len() == 0 {
        assert(p + b =~= p);
        assert(sp.last() + b =~= sp.last());
        assert(sp.update(sp.len() - 1, sp.last() + b) =~= sp);
    } else {
        let b0 = b.drop_last();
        lemma_split_on_append_plain(p, b0, c);
        assert((p + b).drop_last() =~= p + b0);
        assert((p + b).last() == b.last());
        assert((sp.last() + b0).push(b.last()) =~= sp.last() + b);
        let s0 = split_on(p + b0, c);
        assert(s0.update(s0.len() - 1, s0.last().push(b.last())) =~= sp.update(
            sp.len() - 1,
            sp.last() + b,
        ));
    }
}

/// Text that holds no separator is a single piece.
pub proof fn lemma_split_on_plain(b: Seq<char>, c: char)
    requires
        forall|i: int| 0 <= i < b.len() ==> b[i] != c,
    ensures
        split_on(b, c) == seq![b],
{
    let e = Seq::<char>::empty();
    lemma_split_on_append_plain(e, b, c);
    assert(e + b =~= b);
    assert(split_on(e, c) =~= seq![e]);
    assert(e + b =~= b);
    assert(seq![e].update(0, e + b) =~= seq![b]);
}

/// Two texts that hold no separator, joined by one, split back into the two.
pub proof fn lemma_split_on_pair(a: Seq<char>, b: Seq<char>, c: char)
    requires
        forall|i: int| 0 <= i < a.len() ==> a[i] != c,
        forall|i: int| 0 <= i < b.len() ==> b[i] != c,
    ensures
        split_on(a + seq![c] + b, c) == seq![a, b],
{
    let ac = a + seq![c];
    lemma_split_on_plain(a, c);
    assert(ac.drop_last() =~= a);
    assert(ac.last() == c);
    assert(split_on(ac, c) == seq![a].push(Seq::empty()));
    lemma_split_on_append_plain(ac, b, c);
    let e = Seq::<char>::empty();
    assert(e + b =~= b);
    assert(seq![a].push(e).update(1, e + b) =~= seq![a, b]);
}

/// The views of a vector of character vectors.
pub open spec fn views(v: Seq<Vec<char>>) -> Seq<Seq<char>> {
    v.map_values(|p: Vec<char>| p@)
}

/// The pieces of `s` between occurrences of `c`.
pub fn split_chars(s: &Vec<char>, c: char) -> (r: Vec<Vec<char>>)
    ensures
        views(r@) == split_on(s@, c),
{
    let mut pieces: Vec<Vec<char>> = Vec::new();
    let mut cur: Vec<char> = Vec::new();
    let n = s.len();
    assert(s@.take(0) =~= Seq::<char>::empty());
    assert(views(pieces@) + seq![cur@] =~= split_on(Seq::<char>::empty(), c));
    for i in 0..n
        invariant
            n == s.len(),
            split_on(s@.take(i as int), c) == views(pieces@) + seq![cur@],
    {
        let ghost before = views(pieces@);
        let ghost cur_before = cur@;
        assert(s@.take(i + 1).drop_last() =~= s@.take(i as int));
        assert(s@.take(i + 1).last() == s@[i as int]);
        let ch = s[i];
        if ch == c {
            pieces.push(cur);
            cur = Vec::new();
            assert(views(pieces@) =~= before.push(cur_before));
            assert(views(pieces@) + seq![cur@] =~= (before + seq![cur_before]).push(
                Seq::empty(),
            ));
        } else {
            cur.push(ch);
            assert(views(pieces@) =~= before);
            assert(views(pieces@) + seq![cur@] =~= (before + seq![cur_before]).update(
                before.len() as int,
                cur_before.push(ch),
            ));
        }
    }
    let ghost before = views(pieces@);
    pieces.push(cur);
    assert(s@.take(n as int) =~= s@);
    assert(views(pieces@) =~= before + seq![cur@]);
    pieces
}

/// Piece number `k` of `s` split on `c`, if there are more than `k` pieces.
pub fn nth_piece(s: &Vec<char>, c: char, k: usize) -> (r: Option<Vec<char>>)
    ensures
        r is Some <==> k < split_on(s@, c).len(),
        r matches Some(p) ==> p@ == split_on(s@, c)[k as int],
{
    let mut pieces = split_chars(s, c);
    if k < pieces.len() {
        assert(views(pieces@)[k as int] == pieces@[k as int]@);
        Some(pieces.remove(k))
    } else {
        None
    }
}

// ----------------------------------------------------------------------------
// Lexicographic order
// ----------------------------------------------------------------------------

/// `a` comes before `b`, or equals it, in lexicographic order of code points.
/// For strings this is the order of their UTF-8 bytes.
pub open spec fn lex_le(a: Seq<char>, b: Seq<char>) -> bool
    decreases a.len(),
{
    if a.len() == 0 {
        true
    } else if b.len() == 0 {
        false
    } else if a[0] != b[0] {
        (a[0] as int) < (b[0] as int)
    } else {
        lex_le(a.skip(1), b.skip(1))
    }
}

/// Lexicographic order as a relation.
pub open spec fn lex_order() -> spec_fn(Seq<char>, Seq<char>) -> bool {
    |a: Seq<char>, b: Seq<char>| lex_le(a, b)
}

proof fn lemma_lex_reflexive(a: Seq<char>)
    ensures
        lex_le(a, a),
    decreases a.len(),
{
    if a.len() > 0 {
        lemma_lex_reflexive(a.skip(1));
    }
}

proof fn lemma_lex_antisymmetric(a: Seq<char>, b: Seq<char>)
    requires
        lex_le(a, b),
        lex_le(b, a),
    ensures
        a == b,
    decreases a.len(),
{
    if a.len() > 0 && b.len() > 0 {
        lemma_lex_antisymmetric(a.skip(1), b.skip(1));
        assert(a =~= seq![a[0]] + a.skip(1));
        assert(b =~= seq![b[0]] + b.skip(1));
    } else {
        assert(a =~= b);
    }
}

proof fn lemma_lex_transitive(a: Seq<char>, b: Seq<char>, c: Seq<char>)
    requires
        lex_le(a, b),
        lex_le(b, c),
    ensures
        lex_le(a, c),
    decreases a.len(),
{
    if a.len() > 0 && b.len() > 0 && c.len() > 0 {
        if a[0] == b[0] && b[0] == c[0] {
            lemma_lex_transitive(a.skip(1), b.skip(1), c.skip(1));
        }
    }
}

proof fn lemma_lex_connected(a: Seq<char>, b: Seq<char>)
    ensures
        lex_le(a, b) || lex_le(b, a),
    decreases a.len(),
{
    if a.len() > 0 && b.len() > 0 && a[0] == b[0] {
        lemma_lex_connected(a.skip(1), b.skip(1));
    }
}

/// Lexicographic order is a total order: reflexive, antisymmetric,
/// transitive, and any two texts are comparable.
pub proof fn lemma_lex_total_order()
    ensures
        total_ordering(lex_order()),
{
    assert forall|x: Seq<char>| #[trigger] lex_order()(x, x) by {
        lemma_lex_reflexive(x);
    }
    assert forall|x: Seq<char>, y: Seq<char>|
        #[trigger] lex_order()(x, y) && #[trigger] lex_order()(y, x) implies x == y by {
        lemma_lex_antisymmetric(x, y);
    }
    assert forall|x: Seq<char>, y: Seq<char>, z: Seq<char>|
        #[trigger] lex_order()(x, y) && #[trigger] lex_order()(y, z) implies lex_order()(
        x,
        z,
    ) by {
        lemma_lex_transitive(x, y, z);
    }
    assert forall|x: Seq<char>, y: Seq<char>|
        #[trigger] lex_order()(x, y) || #[trigger] lex_order()(y, x) by {
        lemma_lex_connected(x, y);
    }
}

/// Whether `a` comes before `b`, or equals it, in lexicographic order.
pub fn lex_le_chars(a: &Vec<char>, b: &Vec<char>) -> (r: bool)
    ensures
        r == lex_le(a@, b@),
{
    let mut i: usize = 0;
    assert(a@.skip(0) =~= a@);
    assert(b@.skip(0) =~= b@);
    loop
        invariant
            i <= a.len(),
            i <= b.len(),
            lex_le(a@, b@) == lex_le(a@.skip(i as int), b@.skip(i as int)),
        decreases a.len() - i,
    {
        if i == a.len() {
            return true;
        }
        if i == b.len() {
            return false;
        }
        if a[i] != b[i] {
            return a[i] < b[i];
        }
        assert(a@.skip(i as int).skip(1) =~= a@.skip(i + 1));
        assert(b@.skip(i as int).skip(1) =~= b@.skip(i + 1));
        i = i + 1;
    }
}

/// The views of a sequence of strings.
pub open spec fn string_views(v: Seq<String>) -> Seq<Seq<char>> {
    v.map_values(|s: String| s@)
}

/// The strings of `v` in lexicographic order.
pub fn sort_lex(v: &Vec<String>) -> (r: Vec<String>)
    ensures
        string_views(r@) == string_views(v@).sort_by(lex_order()),
{
    let mut r: Vec<String> = Vec::new();
    let mut keys: Vec<Vec<char>> = Vec::new();
    let n = v.len();
    for i in 0..n
        invariant
            n == v.len(),
            keys.len() == r.len(),
            views(keys@) == string_views(r@),
            sorted_by(string_views(r@), lex_order()),
            string_views(r@).to_multiset() == string_views(v@).take(i as int).to_multiset(),
    {
        let s = v[i].clone();
        let x = chars_of(s.as_str());
        let ghost old_r = string_views(r@);
        let mut j = r.len();
        while j > 0 && !lex_le_chars(&keys[j - 1], &x)
            invariant
                j <= r.len(),
                keys.len() == r.len(),
                views(keys@) == string_views(r@),
                old_r == string_views(r@),
                forall|k: int| j <= k < old_r.len() ==> !lex_le(#[trigger] old_r[k], x@),
            decreases j,
        {
            assert(views(keys@)[j - 1] == keys@[j - 1]@);
            j = j - 1;
        }
        assert(j > 0 ==> lex_le(old_r[j - 1], x@)) by {
            if j > 0 {
                assert(views(keys@)[j - 1] == keys@[j - 1]@);
            }
        }
        r.insert(j, s);
        keys.insert(j, x);
        let ghost new_r = string_views(r@);
        assert(new_r =~= old_r.insert(j as int, x@));
        assert(views(keys@) =~= new_r);
        proof {
            lemma_lex_total_order();
            assert forall|a: int, b: int| 0 <= a < b < new_r.len() implies #[trigger] lex_order()(
                new_r[a],
                new_r[b],
            ) by {
                if b < j {
                    assert(lex_order()(old_r[a], old_r[b]));
                } else if b == j {
                    if a < j - 1 {
                        assert(lex_order()(old_r[a], old_r[j - 1]));
                        lemma_lex_transitive(old_r[a], old_r[j - 1], x@);
                    }
                } else if a == j {
                    lemma_lex_connected(x@, old_r[b - 1]);
                } else if a < j {
                    assert(lex_order()(old_r[a], old_r[b - 1]));
                } else {
                    assert(lex_order()(old_r[a - 1], old_r[b - 1]));
                }
            }
            assert(old_r =~= old_r.take(j as int) + old_r.skip(j as int));
            assert(new_r =~= old_r.take(j as int) + (seq![x@] + old_r.skip(j as int)));
            vstd::seq_lib::lemma_multiset_commutative(old_r.take(j as int), old_r.skip(j as int));
            vstd::seq_lib::lemma_multiset_commutative(
                old_r.take(j as int),
                seq![x@] + old_r.skip(j as int),
            );
            vstd::seq_lib::lemma_multiset_commutative(seq![x@], old_r.skip(j as int));
            assert(seq![x@].to_multiset() =~= Seq::<Seq<char>>::empty().push(x@).to_multiset());
            assert(string_views(v@).take(i + 1) =~= string_views(v@).take(i as int).push(x@));
            assert(new_r.to_multiset() =~= old_r.to_multiset().insert(x@));
        }
    }
    proof {
        let sv = string_views(v@);
        assert(sv.take(n as int) =~= sv);
        lemma_lex_total_order();
        sv.lemma_sort_by_ensures(lex_order());
        vstd::seq_lib::lemma_sorted_unique(string_views(r@), sv.sort_by(lex_order()), lex_order());
    }
    r
}

} // verus!
