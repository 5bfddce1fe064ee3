//! Character-sequence helpers: splitting on a separator, counting,
//! searching, replacing and decimal rendering, each proved against a
//! spec function over `Seq<char>`.

use vstd::prelude::*;

verus! {

broadcast use vstd::string::group_string_axioms;

/// The views of a sequence of strings.
pub open spec fn views(v: Seq<String>) -> Seq<Seq<char>> {
    v.map_values(|s: String| s@)
}

/// The pieces of `s` between occurrences of `sep`, as `str::split` with a
/// one-character pattern yields them: one piece more than there are
/// separators, empty pieces kept.
pub open spec fn split_on(s: Seq<char>, sep: char) -> Seq<Seq<char>>
    decreases s.len(),
{
    if s.len() == 0 {
        seq![Seq::<char>::empty()]
    } else {
        let p = split_on(s.drop_last(), sep);
        if s.last() == sep {
            p.push(Seq::<char>::empty())
        } else {
            p.update(p.len() - 1, p.last().push(s.last()))
        }
    }
}

/// The pieces joined back with the separator between them.
pub open spec fn join_with(pieces: Seq<Seq<char>>, sep: char) -> Seq<char>
    decreases pieces.len(),
{
    if pieces.len() <= 1 {
        if pieces.len() == 0 { Seq::<char>::empty() } else { pieces[0] }
    } else {
        join_with(pieces.drop_last(), sep).push(sep) + pieces.last()
    }
}

/// How many times `c` occurs in `s`.
pub open spec fn count_char(s: Seq<char>, c: char) -> nat
    decreases s.len(),
{
    if s.len() == 0 {
        0
    } else {
        count_char(s.drop_last(), c) + (if s.last() == c { 1nat } else { 0nat })
    }
}

/// `pat` occurs in `s` at position `i`.
pub open spec fn occurs_at(s: Seq<char>, pat: Seq<char>, i: int) -> bool {
    0 <= i && i + pat.len() <= s.len() && s.subrange(i, i + pat.len()) == pat
}

/// `pat` occurs somewhere in `s` (`str::contains`).
pub open spec fn contains_seq(s: Seq<char>, pat: Seq<char>) -> bool {
    exists|i: int| occurs_at(s, pat, i)
}

/// `s` with every `from` replaced by `to`.
pub open spec fn replace_char(s: Seq<char>, from: char, to: char) -> Seq<char> {
    s.map_values(|c: char| if c == from { to } else { c })
}

/// The character of decimal digit `d`.
pub open spec fn digit(d: nat) -> char {
    (('0' as nat) + d) as char
}

/// The decimal rendering of `n`, without sign or leading zeros
/// (the `Display` text of an unsigned integer).
pub open spec fn decimal(n: nat) -> Seq<char>
    decreases n,
{
    if n < 10 {
        seq![digit(n)]
    } else {
        decimal(n / 10).push(digit(n % 10))
    }
}

/// Splitting yields at least one piece.
pub proof fn lemma_split_nonempty(s: Seq<char>, sep: char)
    ensures
        split_on(s, sep).len() >= 1,
    decreases s.len(),
{
    if s.len() > 0 {
        lemma_split_nonempty(s.drop_last(), sep);
    }
}

/// Splitting on a separator and joining the pieces with it gives the text back.
pub proof fn lemma_join_split(s: Seq<char>, sep: char)
    ensures
        join_with(split_on(s, sep), sep) == s,
    decreases s.len(),
{
    if s.len() > 0 {
        let t = s.drop_last();
        lemma_join_split(t, sep);
        lemma_split_nonempty(t, sep);
        let p = split_on(t, sep);
        if s.last() == sep {
            assert(p.push(Seq::<char>::empty()).drop_last() == p);
            assert(s == t.push(sep) + Seq::<char>::empty());
        } else {
            let q = p.update(p.len() - 1, p.last().push(s.last()));
            if p.len() == 1 {
                assert(q[0] == s);
            } else {
                assert(q.drop_last() == p.drop_last());
                let j = join_with(p.drop_last(), sep).push(sep);
                assert(join_with(p, sep) == j + p.last());
                assert(j + p.last().push(s.last()) == (j + p.last()).push(s.last()));
            }
        }
    }
}

/// No piece contains the separator.
pub proof fn lemma_split_pieces_free(s: Seq<char>, sep: char, k: int)
    requires
        0 <= k < split_on(s, sep).len(),
    ensures
        !split_on(s, sep)[k].contains(sep),
    decreases s.len(),
{
    if s.len() > 0 {
        let t = s.drop_last();
        lemma_split_nonempty(t, sep);
        let p = split_on(t, sep);
        if s.last() == sep {
            if k < p.len() {
                lemma_split_pieces_free(t, sep, k);
            }
        } else {
            lemma_split_pieces_free(t, sep, k);
            if k == p.len() - 1 {
                let piece = p.last().push(s.last());
                assert forall|i: int| 0 <= i < piece.len() implies piece[i] != sep by {
                    if i < p.last().len() {
                        assert(piece[i] == p.last()[i]);
                    }
                }
            }
        }
    }
}

/// Appends one character to a string (`String::push`).
#[verifier::external_body]
pub(crate) fn push_char(s: &mut String, c: char)
    ensures
        final(s)@ == old(s)@.push(c),
{
    s.push(c);
}

/// A string holding a copy of `s`.
pub fn string_of(s: &str) -> (r: String)
    ensures
        r@ == s@,
{
    String::from_str(s)
}

/// `a` followed by `b`.
pub fn concat2(a: &str, b: &str) -> (r: String)
    ensures
        r@ == a@ + b@,
{
    let mut r = String::from_str(a);
    r.append(b);
    r
}

/// `a`, `b` and `c` in a row.
pub fn concat3(a: &str, b: &str, c: &str) -> (r: String)
    ensures
        r@ == a@ + b@ + c@,
{
    let mut r = String::from_str(a);
    r.append(b);
    r.append(c);
    r
}

/// The characters of `s`, in order.
pub fn chars_of(s: &str) -> (v: Vec<char>)
    ensures
        v@ == s@,
{
    let mut v: Vec<char> = Vec::new();
    for c in it: s.chars()
        invariant
            it.seq() == s@,
            v@ == s@.take(it.index()),
    {
        v.push(c);
    }
    v
}

/// The pieces of `s` between occurrences of `sep` (`str::split`).
pub fn split_str(s: &str, sep: char) -> (pieces: Vec<String>)
    ensures
        views(pieces@) == split_on(s@, sep),
{
    let cs = chars_of(s);
    let mut pieces: Vec<String> = Vec::new();
    let mut cur = String::new();
    let mut i: usize = 0;
    assert(s@.take(0) == Seq::<char>::empty());
    while i < cs.len()
        invariant
            cs@ == s@,
            i <= cs.len(),
            views(pieces@).push(cur@) == split_on(s@.take(i as int), sep),
        decreases cs.len() - i,
    {
        let c = cs[i];
        let ghost before = views(pieces@);
        let ghost cur_before = cur@;
        assert(s@.take(i + 1).drop_last() == s@.take(i as int));
        if c == sep {
            pieces.push(cur);
            cur = String::new();
            assert(views(pieces@) == before.push(cur_before));
        } else {
            push_char(&mut cur, c);
            assert(views(pieces@).push(cur@) == before.push(cur_before).update(
                before.len() as int,
                cur_before.push(c),
            ));
        }
        i += 1;
    }
    assert(s@.take(cs.len() as int) == s@);
    let ghost before = views(pieces@);
    pieces.push(cur);
    assert(views(pieces@) == before.push(cur@));
    pieces
}

/// How many times `c` occurs in `s` (`str::matches(..).count()` for a
/// one-character pattern).
pub fn count_char_in(s: &str, c: char) -> (n: usize)
    ensures
        n == count_char(s@, c),
{
    let cs = chars_of(s);
    let mut n: usize = 0;
    let mut i: usize = 0;
    assert(s@.take(0) == Seq::<char>::empty());
    while i < cs.len()
        invariant
            cs@ == s@,
            i <= cs.len(),
            n == count_char(s@.take(i as int), c),
            n <= i,
        decreases cs.len() - i,
    {
        assert(s@.take(i + 1).drop_last() == s@.take(i as int));
        if cs[i] == c {
            n += 1;
        }
        i += 1;
    }
    assert(s@.take(cs.len() as int) == s@);
    n
}

/// Whether `pat` occurs in `cs` at position `i`.
fn occurs_at_exec(cs: &Vec<char>, pat: &Vec<char>, i: usize) -> (b: bool)
    requires
        i + pat@.len() <= cs@.len(),
    ensures
        b == occurs_at(cs@, pat@, i as int),
{
    let mut j: usize = 0;
    while j < pat.len()
        invariant
            i + pat@.len() <= cs@.len(),
            cs@.len() == cs.len(),
            pat@.len() == pat.len(),
            j <= pat@.len(),
            forall|k: int| 0 <= k < j ==> cs@[i + k] == pat@[k],
        decreases pat@.len() - j,
    {
        if cs[i + j] != pat[j] {
            assert(cs@.subrange(i as int, i + pat@.len())[j as int] != pat@[j as int]);
            return false;
        }
        j += 1;
    }
    assert(cs@.subrange(i as int, i + pat@.len()) =~= pat@);
    true
}

/// Whether `pat` occurs in `s` (`str::contains`).
pub fn contains_str(s: &str, pat: &str) -> (b: bool)
    ensures
        b == contains_seq(s@, pat@),
{
    let cs = chars_of(s);
    let ps = chars_of(pat);
    if ps.len() > cs.len() {
        return false;
    }
    if ps.len() == 0 {
        assert(s@.subrange(0, 0) =~= pat@);
        assert(occurs_at(s@, pat@, 0));
        return true;
    }
    let last = cs.len() - ps.len();
    let mut i: usize = 0;
    while i <= last
        invariant
            cs@ == s@,
            ps@ == pat@,
            last == cs@.len() - ps@.len(),
            ps@.len() > 0,
            cs@.len() == cs.len(),
            i <= last + 1,
            forall|k: int| 0 <= k < i ==> !occurs_at(s@, pat@, k),
        decreases last + 1 - i,
    {
        if occurs_at_exec(&cs, &ps, i) {
            return true;
        }
        i += 1;
    }
    false
}

/// `s` with every `from` replaced by `to` (`str::replace` for one-character
/// patterns).
pub fn replace_char_in(s: &str, from: char, to: char) -> (r: String)
    ensures
        r@ == replace_char(s@, from, to),
{
    let cs = chars_of(s);
    let mut r = String::new();
    let mut i: usize = 0;
    while i < cs.len()
        invariant
            cs@ == s@,
            i <= cs.len(),
            r@ == replace_char(s@, from, to).take(i as int),
        decreases cs.len() - i,
    {
        let c = cs[i];
        if c == from {
            push_char(&mut r, to);
        } else {
            push_char(&mut r, c);
        }
        assert(r@ =~= replace_char(s@, from, to).take(i + 1));
        i += 1;
    }
    assert(replace_char(s@, from, to).take(cs.len() as int) == replace_char(s@, from, to));
    r
}

/// The character of decimal digit `d`.
fn digit_char(d: u64) -> (c: char)
    requires
        d < 10,
    ensures
        c == digit(d as nat),
{
    let b: u8 = 48u8 + (d as u8);
    b as char
}

/// The decimal rendering of `n` (`n.to_string()`).
pub fn decimal_string(n: u64) -> (s: String)
    ensures
        s@ == decimal(n as nat),
    decreases n,
{
    if n < 10 {
        let mut s = String::new();
        push_char(&mut s, digit_char(n));
        s
    } else {
        let mut s = decimal_string(n / 10);
        push_char(&mut s, digit_char(n % 10));
        s
    }
}

/// The characters `cs[from..to]` as a string.
pub fn string_from_range(cs: &Vec<char>, from: usize, to: usize) -> (r: String)
    requires
        from <= to <= cs@.len(),
    ensures
        r@ == cs@.subrange(from as int, to as int),
{
    let mut r = String::new();
    let mut i: usize = from;
    while i < to
        invariant
            from <= i <= to <= cs@.len(),
            r@ == cs@.subrange(from as int, i as int),
        decreases to - i,
    {
        push_char(&mut r, cs[i]);
        assert(r@ =~= cs@.subrange(from as int, i + 1));
        i += 1;
    }
    r
}

/// The first piece of a split is the text before the first separator: it
/// holds no separator, it begins the text, and either it is the whole text
/// or a separator follows it. When it is the whole text it is the only piece.
pub proof fn lemma_split_first(s: Seq<char>, sep: char)
    ensures
        !split_on(s, sep)[0].contains(sep),
        split_on(s, sep)[0].len() <= s.len(),
        s.subrange(0, split_on(s, sep)[0].len() as int) == split_on(s, sep)[0],
        split_on(s, sep)[0].len() < s.len() ==> s[split_on(s, sep)[0].len() as int] == sep,
        split_on(s, sep)[0].len() == s.len() ==> split_on(s, sep).len() == 1,
        split_on(s, sep).len() == 1 ==> split_on(s, sep)[0] == s,
    decreases s.len(),
{
    lemma_split_nonempty(s, sep);
    if s.len() == 0 {
        assert(s.subrange(0, 0) =~= s);
    } else {
        let t = s.drop_last();
        lemma_split_first(t, sep);
        lemma_split_nonempty(t, sep);
        let p = split_on(t, sep);
        let k = p[0];
        if s.last() == sep {
            assert(split_on(s, sep)[0] == k);
            assert(s.subrange(0, k.len() as int) =~= t.subrange(0, k.len() as int));
            if k.len() < t.len() {
                assert(s[k.len() as int] == t[k.len() as int]);
            }
        } else if p.len() > 1 {
            assert(split_on(s, sep)[0] == k);
            assert(k.len() < t.len());
            assert(s.subrange(0, k.len() as int) =~= t.subrange(0, k.len() as int));
            assert(s[k.len() as int] == t[k.len() as int]);
        } else {
            assert(k == t);
            assert(split_on(s, sep)[0] == t.push(s.last()));
            assert(t.push(s.last()) =~= s);
            assert(s.subrange(0, s.len() as int) =~= s);
            assert forall|i: int| 0 <= i < s.len() implies s[i] != sep by {
                if i < t.len() {
                    assert(s[i] == t[i]);
                }
            }
        }
    }
}

/// A text without the separator splits into itself alone.
pub proof fn lemma_split_plain(s: Seq<char>, sep: char)
    requires
        !s.contains(sep),
    ensures
        split_on(s, sep) == seq![s],
{
    lemma_split_first(s, sep);
    let k = split_on(s, sep)[0];
    if k.len() < s.len() {
        assert(s[k.len() as int] == sep);
        assert(s.contains(sep));
    }
    assert(split_on(s, sep) =~= seq![s]);
}

/// Splitting text that holds a separator: the pieces before it, then the
/// pieces after it.
pub proof fn lemma_split_concat(s: Seq<char>, t: Seq<char>, sep: char)
    ensures
        split_on(s.push(sep) + t, sep) == split_on(s, sep) + split_on(t, sep),
    decreases t.len(),
{
    lemma_split_nonempty(s, sep);
    if t.len() == 0 {
        assert(s.push(sep) + t =~= s.push(sep));
        assert(s.push(sep).drop_last() =~= s);
        assert(split_on(s, sep) + split_on(t, sep) =~= split_on(s, sep).push(Seq::<char>::empty()));
    } else {
        let u = t.drop_last();
        let c = t.last();
        lemma_split_concat(s, u, sep);
        lemma_split_nonempty(u, sep);
        let w = s.push(sep) + t;
        assert(w.drop_last() =~= s.push(sep) + u);
        assert(w.last() == c);
        let a = split_on(s, sep);
        let b = split_on(u, sep);
        if c == sep {
            assert((a + b).push(Seq::<char>::empty()) =~= a + b.push(Seq::<char>::empty()));
        } else {
            let pb = a + b;
            assert(pb.update(pb.len() - 1, pb.last().push(c)) =~= a + b.update(
                b.len() - 1,
                b.last().push(c),
            ));
        }
    }
}

} // verus!
