use vstd::prelude::*;
use vstd::string::StringExecFns;

verus! {

broadcast use vstd::string::group_string_axioms;

/// The views of a sequence of strings.
pub open spec fn views(v: Seq<String>) -> Seq<Seq<char>> {
    v.map_values(|t: String| t@)
}

/// `true` when `c` has the Unicode `White_Space` property, which is what
/// `char::is_whitespace` tests.
pub open spec fn is_ws(c: char) -> bool {
    let u = c as u32;
    ||| 0x9 <= u <= 0xd
    ||| u == 0x20
    ||| u == 0x85
    ||| u == 0xa0
    ||| u == 0x1680
    ||| 0x2000 <= u <= 0x200a
    ||| u == 0x2028
    ||| u == 0x2029
    ||| u == 0x202f
    ||| u == 0x205f
    ||| u == 0x3000
}

/// Whether `c` is a Unicode whitespace character.
pub fn is_whitespace(c: char) -> (r: bool)
    ensures
        r == is_ws(c),
{
    let u = c as u32;
    (0x9 <= u && u <= 0xd) || u == 0x20 || u == 0x85 || u == 0xa0 || u == 0x1680 || (0x2000 <= u
        && u <= 0x200a) || u == 0x2028 || u == 0x2029 || u == 0x202f || u == 0x205f || u == 0x3000
}

/// Appends `c` to `s`.
///
/// Calls `String::push`, which appends the given character to the end of the
/// string; the contract claims exactly that.
#[verifier::external_body]
pub(crate) fn push_char(s: &mut String, c: char)
    ensures
        final(s)@ == old(s)@.push(c),
{
    s.push(c);
}

/// What `str::to_lowercase` returns for a string with the characters `s`.
pub uninterp spec fn lowercase(s: Seq<char>) -> Seq<char>;

/// The lowercase form of `s`.
///
/// Calls `str::to_lowercase`. The Unicode lowercase mapping takes pages to
/// state, so the contract only says that the result is a function of the
/// characters of `s`.
#[verifier::external_body]
pub(crate) fn to_lower(s: &str) -> (r: String)
    ensures
        r@ == lowercase(s@),
{
    s.to_lowercase()
}

/// The characters of `s`, in order.
pub fn chars_of(s: &str) -> (v: Vec<char>)
    ensures
        v@ == s@,
{
    let mut v: Vec<char> = Vec::new();
    for c in it: s.chars()
        invariant
            it.seq() == s@,
            v@ == s@.take(it.index() as int),
    {
        v.push(c);
    }
    v
}

/// A string holding the characters `v[from..to]`.
pub fn string_of(v: &[char], from: usize, to: usize) -> (s: String)
    requires
        from <= to <= v@.len(),
    ensures
        s@ == v@.subrange(from as int, to as int),
{
    let mut s = String::new();
    let mut i = from;
    while i < to
        invariant
            from <= i <= to <= v@.len(),
            s@ == v@.subrange(from as int, i as int),
        decreases to - i,
    {
        push_char(&mut s, v[i]);
        assert(v@.subrange(from as int, i + 1) == v@.subrange(from as int, i as int).push(v@[i as int]));
        i = i + 1;
    }
    s
}

/// An owned copy of `s`.
pub fn owned(s: &str) -> (r: String)
    ensures
        r@ == s@,
{
    String::from_str(s)
}

/// `s` followed by `t`.
pub fn concat(s: &str, t: &str) -> (r: String)
    ensures
        r@ == s@ + t@,
{
    let mut r = String::from_str(s);
    r.append(t);
    r
}

/// A copy of a list of strings.
pub fn clone_strings(v: &[String]) -> (r: Vec<String>)
    ensures
        views(r@) == views(v@),
{
    let mut r: Vec<String> = Vec::new();
    let mut i: usize = 0;
    while i < v.len()
        invariant
            i <= v@.len(),
            views(r@) == views(v@).take(i as int),
        decreases v.len() - i,
    {
        let ghost before = views(r@);
        r.push(v[i].clone());
        assert(views(r@) == before.push(v@[i as int]@));
        assert(views(v@).take(i + 1) == views(v@).take(i as int).push(v@[i as int]@));
        i = i + 1;
    }
    assert(views(v@).take(v@.len() as int) == views(v@));
    r
}

/// Whether two strings hold the same characters.
pub fn eq_str(a: &str, b: &str) -> (r: bool)
    ensures
        r == (a@ == b@),
{
    let x = chars_of(a);
    let y = chars_of(b);
    eq_chars(&x, &y)
}

/// Whether two character slices are equal.
pub fn eq_chars(x: &[char], y: &[char]) -> (r: bool)
    ensures
        r == (x@ == y@),
{
    if x.len() != y.len() {
        return false;
    }
    let mut i: usize = 0;
    while i < x.len()
        invariant
            x@.len() == y@.len(),
            i <= x@.len(),
            forall|j: int| 0 <= j < i ==> x@[j] == y@[j],
        decreases x.len() - i,
    {
        if x[i] != y[i] {
            return false;
        }
        i = i + 1;
    }
    assert(x@ =~= y@);
    true
}

/// `s` without its leading whitespace.
pub open spec fn trim_start(s: Seq<char>) -> Seq<char>
    decreases s.len(),
{
    if s.len() > 0 && is_ws(s[0]) {
        trim_start(s.drop_first())
    } else {
        s
    }
}

/// `s` without its trailing whitespace.
pub open spec fn trim_end(s: Seq<char>) -> Seq<char>
    decreases s.len(),
{
    if s.len() > 0 && is_ws(s.last()) {
        trim_end(s.drop_last())
    } else {
        s
    }
}

/// `s` without leading and trailing whitespace, as `str::trim` gives it.
pub open spec fn trim(s: Seq<char>) -> Seq<char> {
    trim_end(trim_start(s))
}

/// Removing trailing whitespace after a non-blank prefix leaves the prefix.
pub proof fn lemma_trim_end_after(x: Seq<char>, y: Seq<char>)
    requires
        x.len() > 0,
        !is_ws(x.last()),
    ensures
        trim_end(x + y) == x + trim_end(y),
    decreases y.len(),
{
    if y.len() == 0 {
        assert(x + y =~= x);
        assert(x + trim_end(y) =~= x);
    } else {
        assert((x + y).last() == y.last());
        if is_ws(y.last()) {
            assert((x + y).drop_last() =~= x + y.drop_last());
            lemma_trim_end_after(x, y.drop_last());
        }
    }
}

proof fn lemma_trim_start_keeps_last(v: Seq<char>)
    requires
        v.len() > 0,
        !is_ws(v.last()),
    ensures
        trim_start(v).len() > 0,
        trim_start(v).last() == v.last(),
    decreases v.len(),
{
    if is_ws(v[0]) {
        assert(v.drop_first().last() == v.last());
        lemma_trim_start_keeps_last(v.drop_first());
    }
}

proof fn lemma_trim_start_drop_last(v: Seq<char>)
    requires
        v.len() > 0,
    ensures
        (trim_start(v).len() == 0 && trim_start(v.drop_last()).len() == 0) || trim_start(v)
            == trim_start(v.drop_last()).push(v.last()),
    decreases v.len(),
{
    if is_ws(v[0]) {
        assert(trim_start(v) == trim_start(v.drop_first()));
        if v.len() > 1 {
            assert(v.drop_first().drop_last() =~= v.drop_last().drop_first());
            assert(v.drop_last()[0] == v[0]);
            assert(trim_start(v.drop_last()) == trim_start(v.drop_last().drop_first()));
            assert(v.drop_first().last() == v.last());
            lemma_trim_start_drop_last(v.drop_first());
        } else {
            assert(v.drop_first().len() == 0);
            assert(trim_start(v.drop_first()) == v.drop_first());
            assert(trim_start(v.drop_last()) == v.drop_last());
        }
    } else {
        if v.len() > 1 {
            assert(v.drop_last()[0] == v[0]);
        }
        assert(v =~= v.drop_last().push(v.last()));
    }
}

proof fn lemma_trim_end_idempotent(v: Seq<char>)
    ensures
        trim_end(trim_end(v)) == trim_end(v),
    decreases v.len(),
{
    if v.len() > 0 && is_ws(v.last()) {
        lemma_trim_end_idempotent(v.drop_last());
    }
}

proof fn lemma_trim_ends_commute(v: Seq<char>)
    ensures
        trim_start(trim_end(v)) == trim_end(trim_start(v)),
    decreases v.len(),
{
    if v.len() > 0 {
        if is_ws(v.last()) {
            lemma_trim_ends_commute(v.drop_last());
            lemma_trim_start_drop_last(v);
            if trim_start(v).len() > 0 {
                assert(trim_start(v).drop_last() =~= trim_start(v.drop_last()));
            }
        } else {
            lemma_trim_start_keeps_last(v);
        }
    }
}

/// Trimming after removing trailing whitespace is trimming.
pub proof fn lemma_trim_of_trim_end(v: Seq<char>)
    ensures
        trim(trim_end(v)) == trim(v),
{
    lemma_trim_ends_commute(v);
    lemma_trim_end_idempotent(trim_start(v));
}

/// The bounds of `v[from..to]` once its leading and trailing whitespace are removed.
pub fn trim_bounds(v: &[char], from: usize, to: usize) -> (r: (usize, usize))
    requires
        from <= to <= v@.len(),
    ensures
        from <= r.0 <= r.1 <= to,
        v@.subrange(r.0 as int, r.1 as int) == trim(v@.subrange(from as int, to as int)),
{
    let mut a = from;
    while a < to && is_whitespace(v[a])
        invariant
            from <= a <= to <= v@.len(),
            trim_start(v@.subrange(from as int, to as int)) == trim_start(
                v@.subrange(a as int, to as int),
            ),
        decreases to - a,
    {
        assert(v@.subrange(a as int, to as int).drop_first() == v@.subrange(a + 1, to as int));
        a = a + 1;
    }
    assert(trim_start(v@.subrange(a as int, to as int)) == v@.subrange(a as int, to as int));
    assert(trim(v@.subrange(from as int, to as int)) == trim_end(v@.subrange(a as int, to as int)));
    let mut b = to;
    while b > a && is_whitespace(v[b - 1])
        invariant
            from <= a <= b <= to <= v@.len(),
            trim_end(v@.subrange(a as int, to as int)) == trim_end(v@.subrange(a as int, b as int)),
        decreases b - a,
    {
        assert(v@.subrange(a as int, b as int).drop_last() == v@.subrange(a as int, b - 1));
        b = b - 1;
    }
    (a, b)
}

/// `s` without leading and trailing whitespace.
pub fn trim_str(s: &str) -> (r: String)
    ensures
        r@ == trim(s@),
{
    let v = chars_of(s);
    let (a, b) = trim_bounds(&v, 0, v.len());
    assert(v@.subrange(0, v@.len() as int) == v@);
    string_of(&v, a, b)
}

/// The pieces of `s` between the occurrences of `sep`, as `str::split` gives
/// them: there is always at least one piece.
pub open spec fn split_char(s: Seq<char>, sep: char) -> Seq<Seq<char>>
    decreases s.len(),
{
    if s.len() == 0 {
        seq![seq![]]
    } else {
        let p = split_char(s.drop_last(), sep);
        if s.last() == sep {
            p.push(seq![])
        } else {
            p.update(p.len() - 1, p.last().push(s.last()))
        }
    }
}

pub proof fn lemma_split_char_nonempty(s: Seq<char>, sep: char)
    ensures
        split_char(s, sep).len() >= 1,
    decreases s.len(),
{
    if s.len() > 0 {
        lemma_split_char_nonempty(s.drop_last(), sep);
    }
}

/// Appending text without `sep` extends the last piece.
pub proof fn lemma_split_char_extend(p: Seq<char>, t: Seq<char>, sep: char)
    requires
        !t.contains(sep),
    ensures
        split_char(p + t, sep) == split_char(p, sep).update(
            split_char(p, sep).len() - 1,
            split_char(p, sep).last() + t,
        ),
    decreases t.len(),
{
    lemma_split_char_nonempty(p, sep);
    if t.len() == 0 {
        assert(p + t =~= p);
        assert(split_char(p, sep).last() + t =~= split_char(p, sep).last());
        assert(split_char(p, sep).update(split_char(p, sep).len() - 1, split_char(p, sep).last())
            =~= split_char(p, sep));
    } else {
        assert(!t.drop_last().contains(sep)) by {
            if t.drop_last().contains(sep) {
                let i = choose|i: int| 0 <= i < t.drop_last().len() && t.drop_last()[i] == sep;
                assert(t[i] == sep);
            }
        }
        assert(t.last() != sep) by {
            assert(t[t.len() - 1] == t.last());
        }
        lemma_split_char_extend(p, t.drop_last(), sep);
        assert((p + t).drop_last() =~= p + t.drop_last());
        assert((p + t).last() == t.last());
        assert(split_char(p, sep).last() + t =~= (split_char(p, sep).last() + t.drop_last()).push(
            t.last(),
        ));
        let q = split_char(p, sep);
        let r = q.update(q.len() - 1, q.last() + t.drop_last());
        assert(r.update(r.len() - 1, r.last().push(t.last())) =~= q.update(
            q.len() - 1,
            q.last() + t,
        ));
    }
}

/// The pieces of two texts without `sep`, joined by one `sep`.
pub proof fn lemma_split_char_two(a: Seq<char>, b: Seq<char>, sep: char)
    requires
        !a.contains(sep),
        !b.contains(sep),
    ensures
        split_char(a + seq![sep] + b, sep) == seq![a, b],
{
    let e: Seq<char> = seq![];
    lemma_split_char_extend(e, a, sep);
    assert(e + a =~= a);
    assert(split_char(e, sep) == seq![e]);
    assert(split_char(a, sep) =~= seq![a]);
    let x = a + seq![sep];
    assert(x.drop_last() =~= a);
    assert(x.last() == sep);
    assert(split_char(x, sep) =~= seq![a, e]);
    lemma_split_char_extend(x, b, sep);
    assert(e + b =~= b);
    assert(split_char(x + b, sep) =~= seq![a, b]);
}

/// The pieces of `v` between the occurrences of `sep`.
pub fn split_on(v: &[char], sep: char) -> (r: Vec<String>)
    ensures
        views(r@) == split_char(v@, sep),
{
    let mut pieces: Vec<String> = Vec::new();
    let mut start: usize = 0;
    let mut i: usize = 0;
    while i < v.len()
        invariant
            start <= i <= v@.len(),
            ({
                let p = split_char(v@.take(i as int), sep);
                &&& p.len() >= 1
                &&& views(pieces@) == p.drop_last()
                &&& p.last() == v@.subrange(start as int, i as int)
            }),
        decreases v.len() - i,
    {
        assert(v@.take(i + 1).drop_last() == v@.take(i as int));
        proof {
            lemma_split_char_nonempty(v@.take(i as int), sep);
        }
        if v[i] == sep {
            let ghost before = views(pieces@);
            pieces.push(string_of(v, start, i));
            assert(views(pieces@) == before.push(v@.subrange(start as int, i as int)));
            start = i + 1;
        } else {
            assert(v@.subrange(start as int, i + 1) == v@.subrange(start as int, i as int).push(
                v@[i as int],
            ));
        }
        i = i + 1;
        proof {
            lemma_split_char_nonempty(v@.take(i as int), sep);
        }
    }
    assert(v@.take(v@.len() as int) == v@);
    let ghost before = views(pieces@);
    pieces.push(string_of(v, start, v.len()));
    assert(views(pieces@) == before.push(v@.subrange(start as int, v@.len() as int)));
    pieces
}

} // verus!
