//! Character-level text handling: the model of `str` operations that the
//! parsers of this crate are stated in, and their executable counterparts.
use vstd::prelude::*;

verus! {

/// Appending one character to a `String` extends its character sequence by it.
pub assume_specification[ String::push ](s: &mut String, ch: char)
    ensures
        final(s)@ == old(s)@.push(ch),
;

// ---------------------------------------------------------------------------
// Whitespace
// ---------------------------------------------------------------------------
/// The Unicode `White_Space` property, which `char::is_whitespace` tests.
pub open spec fn is_ws(c: char) -> bool {
    let u = c as u32;
    (9 <= u && u <= 13) || u == 32 || u == 0x85 || u == 0xa0 || u == 0x1680 || (0x2000 <= u && u
        <= 0x200a) || u == 0x2028 || u == 0x2029 || u == 0x202f || u == 0x205f || u == 0x3000
}

pub fn is_whitespace(c: char) -> (r: bool)
    ensures
        r == is_ws(c),
{
    let u = c as u32;
    (9 <= u && u <= 13) || u == 32 || u == 0x85 || u == 0xa0 || u == 0x1680 || (0x2000 <= u && u
        <= 0x200a) || u == 0x2028 || u == 0x2029 || u == 0x202f || u == 0x205f || u == 0x3000
}

// ---------------------------------------------------------------------------
// Conversions between `str`, `String` and `Vec<char>`
// ---------------------------------------------------------------------------
pub fn chars_of(s: &str) -> (v: Vec<char>)
    ensures
        v@ == s@,
{
    broadcast use vstd::string::group_string_axioms;

    let mut v: Vec<char> = Vec::new();
    for c in it: s.chars()
        invariant
            v@ == it.seq().take(it.index() as int),
            it.seq() == s@,
    {
        v.push(c);
    }
    v
}

pub fn string_of(v: &Vec<char>) -> (s: String)
    ensures
        s@ == v@,
{
    let mut s = String::new();
    let mut i: usize = 0;
    while i < v.len()
        invariant
            i <= v.len(),
            s@ == v@.take(i as int),
        decreases v.len() - i,
    {
        s.push(v[i]);
        i = i + 1;
        assert(s@ =~= v@.take(i as int));
    }
    assert(v@.take(i as int) =~= v@);
    s
}

/// Appends the characters of `v` to `out`.
pub fn push_all(out: &mut Vec<char>, v: &Vec<char>)
    ensures
        final(out)@ == old(out)@ + v@,
{
    let ghost start = out@;
    let mut i: usize = 0;
    while i < v.len()
        invariant
            i <= v.len(),
            out@ == start + v@.take(i as int),
        decreases v.len() - i,
    {
        out.push(v[i]);
        i = i + 1;
        assert(out@ =~= start + v@.take(i as int));
    }
    assert(v@.take(i as int) =~= v@);
}

/// Appends the characters of `s` to `out`.
pub fn push_str(out: &mut Vec<char>, s: &str)
    ensures
        final(out)@ == old(out)@ + s@,
{
    let v = chars_of(s);
    push_all(out, &v);
}

pub fn slice(v: &Vec<char>, from: usize, to: usize) -> (r: Vec<char>)
    requires
        from <= to <= v.len(),
    ensures
        r@ == v@.subrange(from as int, to as int),
{
    let mut r: Vec<char> = Vec::new();
    let mut i: usize = from;
    while i < to
        invariant
            from <= i <= to <= v.len(),
            r@ == v@.subrange(from as int, i as int),
        decreases to - i,
    {
        r.push(v[i]);
        i = i + 1;
        assert(r@ =~= v@.subrange(from as int, i as int));
    }
    r
}

pub fn copy_chars(v: &Vec<char>) -> (r: Vec<char>)
    ensures
        r@ == v@,
{
    let r = slice(v, 0, v.len());
    assert(r@ =~= v@);
    r
}

pub fn chars_eq(a: &Vec<char>, b: &Vec<char>) -> (r: bool)
    ensures
        r == (a@ == b@),
{
    if a.len() != b.len() {
        return false;
    }
    let mut i: usize = 0;
    while i < a.len()
        invariant
            a.len() == b.len(),
            i <= a.len(),
            forall|k: int| 0 <= k < i ==> a@[k] == b@[k],
        decreases a.len() - i,
    {
        if a[i] != b[i] {
            return false;
        }
        i = i + 1;
    }
    assert(a@ =~= b@);
    true
}

/// `v` holds exactly the characters of the text `s`.
pub fn is_text(v: &Vec<char>, s: &str) -> (r: bool)
    ensures
        r == (v@ == s@),
{
    let w = chars_of(s);
    chars_eq(v, &w)
}

// ---------------------------------------------------------------------------
// Searching
// ---------------------------------------------------------------------------
/// Index of the first occurrence of `c` in `s`.
pub open spec fn find_char(s: Seq<char>, c: char) -> Option<int>
    decreases s.len(),
{
    if s.len() == 0 {
        None
    } else if s[0] == c {
        Some(0)
    } else {
        match find_char(s.drop_first(), c) {
            Some(i) => Some(i + 1),
            None => None,
        }
    }
}

pub proof fn lemma_find_char_found(s: Seq<char>, c: char, i: int)
    requires
        0 <= i < s.len(),
        s[i] == c,
        forall|k: int| 0 <= k < i ==> s[k] != c,
    ensures
        find_char(s, c) == Some(i),
    decreases i,
{
    if i > 0 {
        lemma_find_char_found(s.drop_first(), c, i - 1);
    }
}

pub proof fn lemma_find_char_absent(s: Seq<char>, c: char)
    requires
        forall|k: int| 0 <= k < s.len() ==> s[k] != c,
    ensures
        find_char(s, c) == None::<int>,
    decreases s.len(),
{
    if s.len() > 0 {
        lemma_find_char_absent(s.drop_first(), c);
    }
}

pub proof fn lemma_find_char_range(s: Seq<char>, c: char)
    ensures
        match find_char(s, c) {
            Some(i) => 0 <= i < s.len() && s[i] == c && forall|k: int| 0 <= k < i ==> s[k] != c,
            None => forall|k: int| 0 <= k < s.len() ==> s[k] != c,
        },
    decreases s.len(),
{
    if s.len() > 0 {
        lemma_find_char_range(s.drop_first(), c);
        if s[0] != c {
            match find_char(s.drop_first(), c) {
                Some(i) => {
                    assert forall|k: int| 0 <= k < i + 1 implies s[k] != c by {
                        if k > 0 {
                            assert(s[k] == s.drop_first()[k - 1]);
                        }
                    }
                },
                None => {
                    assert forall|k: int| 0 <= k < s.len() implies s[k] != c by {
                        if k > 0 {
                            assert(s[k] == s.drop_first()[k - 1]);
                        }
                    }
                },
            }
        }
    }
}

/// First position at or after `from` that holds `c`.
pub fn find_from(v: &Vec<char>, from: usize, c: char) -> (r: Option<usize>)
    requires
        from <= v.len(),
    ensures
        match r {
            Some(j) => from <= j < v.len() && find_char(v@.skip(from as int), c) == Some(
                j - from,
            ),
            None => find_char(v@.skip(from as int), c) == None::<int>,
        },
{
    let mut j: usize = from;
    while j < v.len()
        invariant
            from <= j <= v.len(),
            forall|k: int| from <= k < j ==> v@[k] != c,
        decreases v.len() - j,
    {
        if v[j] == c {
            proof {
                lemma_find_char_found(v@.skip(from as int), c, j - from);
            }
            return Some(j);
        }
        j = j + 1;
    }
    proof {
        lemma_find_char_absent(v@.skip(from as int), c);
    }
    None
}

pub open spec fn starts_with(s: Seq<char>, p: Seq<char>) -> bool {
    p.len() <= s.len() && s.take(p.len() as int) == p
}

pub open spec fn ends_with(s: Seq<char>, p: Seq<char>) -> bool {
    p.len() <= s.len() && s.skip(s.len() - p.len()) == p
}

/// `sub` occurs somewhere in `s`.
pub open spec fn contains(s: Seq<char>, sub: Seq<char>) -> bool {
    exists|i: int| 0 <= i <= s.len() - sub.len() && #[trigger] s.subrange(i, i + sub.len()) == sub
}

/// `p` occurs in `v` at position `at`.
pub fn matches_at(v: &Vec<char>, at: usize, p: &Vec<char>) -> (r: bool)
    requires
        at <= v.len(),
    ensures
        r == (p.len() <= v.len() - at && v@.subrange(at as int, at + p.len()) == p@),
{
    if p.len() > v.len() - at {
        return false;
    }
    let mut k: usize = 0;
    while k < p.len()
        invariant
            p.len() <= v.len() - at,
            k <= p.len(),
            forall|m: int| 0 <= m < k ==> v@[at + m] == p@[m],
        decreases p.len() - k,
    {
        if v[at + k] != p[k] {
            assert(v@.subrange(at as int, at + p.len())[k as int] != p@[k as int]);
            return false;
        }
        k = k + 1;
    }
    assert(v@.subrange(at as int, at + p.len()) =~= p@);
    true
}

pub fn starts_with_chars(v: &Vec<char>, p: &Vec<char>) -> (r: bool)
    ensures
        r == starts_with(v@, p@),
{
    let r = matches_at(v, 0, p);
    assert(v@.subrange(0, p.len() as int) == v@.take(p.len() as int));
    r
}

pub fn starts_with_text(v: &Vec<char>, p: &str) -> (r: bool)
    ensures
        r == starts_with(v@, p@),
{
    let w = chars_of(p);
    starts_with_chars(v, &w)
}

pub fn ends_with_text(v: &Vec<char>, p: &str) -> (r: bool)
    ensures
        r == ends_with(v@, p@),
{
    let w = chars_of(p);
    if w.len() > v.len() {
        return false;
    }
    let r = matches_at(v, v.len() - w.len(), &w);
    assert(v@.subrange(v.len() - w.len(), v.len() as int) == v@.skip(v.len() - w.len()));
    r
}

pub fn contains_chars(v: &Vec<char>, p: &Vec<char>) -> (r: bool)
    ensures
        r == contains(v@, p@),
{
    if p.len() > v.len() {
        return false;
    }
    let last: usize = v.len() - p.len();
    let mut i: usize = 0;
    loop
        invariant
            last == v.len() - p.len(),
            i <= last,
            forall|k: int| 0 <= k < i ==> #[trigger] v@.subrange(k, k + p.len()) != p@,
        decreases last - i,
    {
        if matches_at(v, i, p) {
            return true;
        }
        if i == last {
            assert forall|k: int| 0 <= k <= v.len() - p.len() implies #[trigger] v@.subrange(
                k,
                k + p.len(),
            ) != p@ by {}
            return false;
        }
        i = i + 1;
    }
}

pub fn contains_text(v: &Vec<char>, p: &str) -> (r: bool)
    ensures
        r == contains(v@, p@),
{
    let w = chars_of(p);
    contains_chars(v, &w)
}

pub fn str_contains(s: &str, p: &str) -> (r: bool)
    ensures
        r == contains(s@, p@),
{
    let v = chars_of(s);
    contains_text(&v, p)
}

/// The deep view of a vector of characters is its view.
pub proof fn lemma_deep_view_chars(v: &Vec<char>)
    ensures
        v.deep_view() == v@,
{
    assert(v.deep_view() =~= v@);
}

// ---------------------------------------------------------------------------
// Lines (`str::lines`)
// ---------------------------------------------------------------------------
/// Drops one trailing carriage return.
pub open spec fn strip_cr(l: Seq<char>) -> Seq<char> {
    if l.len() > 0 && l.last() == '\r' {
        l.drop_last()
    } else {
        l
    }
}

/// The lines of `s` as `str::lines` yields them: split after each `'\n'`,
/// which is dropped together with a `'\r'` just before it; a final line needs
/// no line ending, and no empty line follows a final `'\n'`.
pub open spec fn lines(s: Seq<char>) -> Seq<Seq<char>>
    decreases s.len(),
{
    if s.len() == 0 {
        seq![]
    } else {
        match find_char(s, '\n') {
            Some(i) => if 0 <= i < s.len() {
                seq![strip_cr(s.take(i))] + lines(s.skip(i + 1))
            } else {
                seq![]
            },
            None => seq![s],
        }
    }
}

pub fn strip_cr_chars(v: Vec<char>) -> (r: Vec<char>)
    ensures
        r@ == strip_cr(v@),
{
    let mut v = v;
    if v.len() > 0 && v[v.len() - 1] == '\r' {
        v.pop();
    }
    v
}

pub fn split_lines(v: &Vec<char>) -> (r: Vec<Vec<char>>)
    ensures
        r.deep_view() == lines(v@),
{
    let mut acc: Vec<Vec<char>> = Vec::new();
    let mut start: usize = 0;
    assert(v@.skip(0) =~= v@);
    while start < v.len()
        invariant
            start <= v.len(),
            acc.deep_view() + lines(v@.skip(start as int)) == lines(v@),
        decreases v.len() - start,
    {
        let ghost s = v@.skip(start as int);
        let ghost old_acc = acc.deep_view();
        proof {
            lemma_find_char_range(s, '\n');
        }
        match find_from(v, start, '\n') {
            Some(j) => {
                let line = strip_cr_chars(slice(v, start, j));
                proof {
                    lemma_deep_view_chars(&line);
                }
                assert(s.take(j - start) =~= v@.subrange(start as int, j as int));
                assert(s.skip(j - start + 1) =~= v@.skip(j + 1));
                assert(lines(s) == seq![line@] + lines(v@.skip(j + 1)));
                acc.push(line);
                assert(acc.deep_view() =~= old_acc.push(line@));
                assert(old_acc.push(line@) + lines(v@.skip(j + 1)) =~= old_acc + (seq![line@]
                    + lines(v@.skip(j + 1))));
                start = j + 1;
            },
            None => {
                let rest = slice(v, start, v.len());
                proof {
                    lemma_deep_view_chars(&rest);
                }
                assert(rest@ =~= s);
                assert(lines(s) == seq![rest@]);
                acc.push(rest);
                assert(acc.deep_view() =~= old_acc.push(s));
                assert(v@.skip(v.len() as int) =~= Seq::<char>::empty());
                assert(old_acc.push(s) + lines(Seq::<char>::empty()) =~= old_acc + seq![s]);
                start = v.len();
            },
        }
    }
    assert(lines(v@.skip(start as int)) =~= Seq::<Seq<char>>::empty()) by {
        assert(v@.skip(start as int) =~= Seq::<char>::empty());
    }
    assert(acc.deep_view() + Seq::<Seq<char>>::empty() =~= acc.deep_view());
    acc
}

// ---------------------------------------------------------------------------
// Whitespace-separated words (`str::split_whitespace`)
// ---------------------------------------------------------------------------
/// Length of the run of non-whitespace characters at the front of `s`.
pub open spec fn word_len(s: Seq<char>) -> nat
    decreases s.len(),
{
    if s.len() == 0 || is_ws(s[0]) {
        0
    } else {
        1 + word_len(s.drop_first())
    }
}

/// The maximal runs of non-whitespace characters of `s`, in order.
pub open spec fn words(s: Seq<char>) -> Seq<Seq<char>>
    decreases s.len(),
{
    if s.len() == 0 {
        seq![]
    } else if is_ws(s[0]) {
        words(s.drop_first())
    } else {
        let n = word_len(s);
        if 0 < n <= s.len() {
            seq![s.take(n as int)] + words(s.skip(n as int))
        } else {
            seq![]
        }
    }
}

pub proof fn lemma_word_len(s: Seq<char>, m: int)
    requires
        0 <= m <= s.len(),
        forall|k: int| 0 <= k < m ==> !is_ws(s[k]),
        m == s.len() || is_ws(s[m]),
    ensures
        word_len(s) == m,
    decreases m,
{
    if m > 0 {
        assert forall|k: int| 0 <= k < m - 1 implies !is_ws(s.drop_first()[k]) by {
            assert(s.drop_first()[k] == s[k + 1]);
        }
        if m < s.len() {
            assert(s.drop_first()[m - 1] == s[m]);
        }
        lemma_word_len(s.drop_first(), m - 1);
    }
}

pub fn split_words(v: &Vec<char>) -> (r: Vec<Vec<char>>)
    ensures
        r.deep_view() == words(v@),
{
    let mut acc: Vec<Vec<char>> = Vec::new();
    let mut i: usize = 0;
    assert(v@.skip(0) =~= v@);
    while i < v.len()
        invariant
            i <= v.len(),
            acc.deep_view() + words(v@.skip(i as int)) == words(v@),
        decreases v.len() - i,
    {
        let ghost s = v@.skip(i as int);
        let ghost old_acc = acc.deep_view();
        if is_whitespace(v[i]) {
            assert(s.drop_first() =~= v@.skip(i + 1));
            i = i + 1;
        } else {
            let mut j: usize = i;
            while j < v.len() && !is_whitespace(v[j])
                invariant
                    i <= j <= v.len(),
                    forall|k: int| i <= k < j ==> !is_ws(v@[k]),
                decreases v.len() - j,
            {
                j = j + 1;
            }
            proof {
                lemma_word_len(s, j - i);
            }
            let word = slice(v, i, j);
            proof {
                lemma_deep_view_chars(&word);
            }
            assert(s.take(j - i) =~= word@);
            assert(s.skip(j - i) =~= v@.skip(j as int));
            acc.push(word);
            assert(acc.deep_view() =~= old_acc.push(word@));
            assert(old_acc.push(word@) + words(v@.skip(j as int)) =~= old_acc + (seq![word@]
                + words(v@.skip(j as int))));
            i = j;
        }
    }
    assert(words(v@.skip(i as int)) =~= Seq::<Seq<char>>::empty()) by {
        assert(v@.skip(i as int) =~= Seq::<char>::empty());
    }
    assert(acc.deep_view() + Seq::<Seq<char>>::empty() =~= acc.deep_view());
    acc
}

// ---------------------------------------------------------------------------
// Trimming (`str::trim`)
// ---------------------------------------------------------------------------
pub open spec fn trim_start(s: Seq<char>) -> Seq<char>
    decreases s.len(),
{
    if s.len() > 0 && is_ws(s[0]) {
        trim_start(s.drop_first())
    } else {
        s
    }
}

pub open spec fn trim_end(s: Seq<char>) -> Seq<char>
    decreases s.len(),
{
    if s.len() > 0 && is_ws(s.last()) {
        trim_end(s.drop_last())
    } else {
        s
    }
}

/// `s` without leading and trailing whitespace.
pub open spec fn trim(s: Seq<char>) -> Seq<char> {
    trim_end(trim_start(s))
}

pub fn trim_chars(v: &Vec<char>) -> (r: Vec<char>)
    ensures
        r@ == trim(v@),
{
    let mut a: usize = 0;
    assert(v@.skip(0) =~= v@);
    while a < v.len() && is_whitespace(v[a])
        invariant
            a <= v.len(),
            trim_start(v@.skip(a as int)) == trim_start(v@),
        decreases v.len() - a,
    {
        assert(v@.skip(a as int).drop_first() =~= v@.skip(a + 1));
        a = a + 1;
    }
    let ghost t = v@.skip(a as int);
    assert(trim_start(v@) == t);
    let mut b: usize = v.len();
    assert(v@.subrange(a as int, b as int) =~= t);
    while b > a && is_whitespace(v[b - 1])
        invariant
            a <= b <= v.len(),
            trim_end(v@.subrange(a as int, b as int)) == trim_end(t),
        decreases b - a,
    {
        assert(v@.subrange(a as int, b as int).drop_last() =~= v@.subrange(a as int, b - 1));
        b = b - 1;
    }
    slice(v, a, b)
}

pub fn trim_str(s: &str) -> (r: Vec<char>)
    ensures
        r@ == trim(s@),
{
    let v = chars_of(s);
    trim_chars(&v)
}

// ---------------------------------------------------------------------------
// Splitting at a character (`str::split_once`, `str::split`)
// ---------------------------------------------------------------------------
/// The parts of `s` before and after the first `c`.
pub open spec fn split_once(s: Seq<char>, c: char) -> Option<(Seq<char>, Seq<char>)> {
    match find_char(s, c) {
        Some(i) => Some((s.take(i), s.skip(i + 1))),
        None => None,
    }
}

pub fn split_once_chars(v: &Vec<char>, c: char) -> (r: Option<(Vec<char>, Vec<char>)>)
    ensures
        match r {
            Some(p) => split_once(v@, c) == Some((p.0@, p.1@)),
            None => split_once(v@, c) is None,
        },
{
    assert(v@.skip(0) =~= v@);
    match find_from(v, 0, c) {
        Some(j) => {
            let a = slice(v, 0, j);
            let b = slice(v, j + 1, v.len());
            assert(a@ =~= v@.take(j as int));
            assert(b@ =~= v@.skip(j + 1));
            Some((a, b))
        },
        None => None,
    }
}

/// The pieces of `s` between occurrences of `c` (always at least one).
pub open spec fn split_char(s: Seq<char>, c: char) -> Seq<Seq<char>>
    decreases s.len(),
{
    match find_char(s, c) {
        Some(i) => if 0 <= i < s.len() {
            seq![s.take(i)] + split_char(s.skip(i + 1), c)
        } else {
            seq![s]
        },
        None => seq![s],
    }
}

pub proof fn lemma_split_char_nonempty(s: Seq<char>, c: char)
    ensures
        split_char(s, c).len() >= 1,
{
    lemma_find_char_range(s, c);
}

pub fn split_on(v: &Vec<char>, c: char) -> (r: Vec<Vec<char>>)
    ensures
        r.deep_view() == split_char(v@, c),
{
    let mut acc: Vec<Vec<char>> = Vec::new();
    let mut start: usize = 0;
    assert(v@.skip(0) =~= v@);
    loop
        invariant
            start <= v.len(),
            acc.deep_view() + split_char(v@.skip(start as int), c) == split_char(v@, c),
        decreases v.len() - start,
    {
        let ghost s = v@.skip(start as int);
        let ghost old_acc = acc.deep_view();
        proof {
            lemma_find_char_range(s, c);
        }
        match find_from(v, start, c) {
            Some(j) => {
                let piece = slice(v, start, j);
                proof {
                    lemma_deep_view_chars(&piece);
                }
                assert(s.take(j - start) =~= piece@);
                assert(s.skip(j - start + 1) =~= v@.skip(j + 1));
                acc.push(piece);
                assert(acc.deep_view() =~= old_acc.push(piece@));
                assert(old_acc.push(piece@) + split_char(v@.skip(j + 1), c) =~= old_acc + (
                seq![piece@] + split_char(v@.skip(j + 1), c)));
                start = j + 1;
            },
            None => {
                let piece = slice(v, start, v.len());
                proof {
                    lemma_deep_view_chars(&piece);
                }
                assert(piece@ =~= s);
                acc.push(piece);
                assert(acc.deep_view() =~= old_acc.push(s));
                assert(old_acc.push(s) =~= old_acc + seq![s]);
                return acc;
            },
        }
    }
}

// ---------------------------------------------------------------------------
// Joining
// ---------------------------------------------------------------------------
/// The parts concatenated with `sep` between neighbours.
pub open spec fn join(parts: Seq<Seq<char>>, sep: Seq<char>) -> Seq<char>
    decreases parts.len(),
{
    if parts.len() == 0 {
        seq![]
    } else if parts.len() == 1 {
        parts[0]
    } else {
        join(parts.drop_last(), sep) + sep + parts.last()
    }
}

pub fn join_chars(parts: &Vec<Vec<char>>, sep: &str) -> (r: Vec<char>)
    ensures
        r@ == join(parts.deep_view(), sep@),
{
    let mut out: Vec<char> = Vec::new();
    let mut i: usize = 0;
    while i < parts.len()
        invariant
            i <= parts.len(),
            out@ == join(parts.deep_view().take(i as int), sep@),
        decreases parts.len() - i,
    {
        let ghost before = out@;
        if i > 0 {
            push_str(&mut out, sep);
        }
        push_all(&mut out, &parts[i]);
        proof {
            let dv = parts.deep_view();
            assert(dv.take(i + 1).drop_last() =~= dv.take(i as int));
            assert(dv[i as int] == parts@[i as int]@);
            if i == 0 {
                assert(out@ =~= dv.take(1)[0]);
            }
        }
        i = i + 1;
    }
    assert(parts.deep_view().take(i as int) =~= parts.deep_view());
    out
}

// ---------------------------------------------------------------------------
// Decimal numbers (`str::parse` for integers, `Display` for integers)
// ---------------------------------------------------------------------------
pub open spec fn is_digit(c: char) -> bool {
    48 <= (c as u32) <= 57
}

pub open spec fn digit_value(c: char) -> nat {
    ((c as u32) - 48) as nat
}

pub open spec fn all_digits(s: Seq<char>) -> bool {
    forall|i: int| 0 <= i < s.len() ==> is_digit(#[trigger] s[i])
}

/// The number that the decimal digits `s` denote.
pub open spec fn decimal_value(s: Seq<char>) -> nat
    decreases s.len(),
{
    if s.len() == 0 {
        0
    } else {
        decimal_value(s.drop_last()) * 10 + digit_value(s.last())
    }
}

/// `s` without one leading `'+'`.
pub open spec fn unsigned_digits(s: Seq<char>) -> Seq<char> {
    if s.len() > 0 && s[0] == '+' {
        s.drop_first()
    } else {
        s
    }
}

/// What `FromStr` of an unsigned integer type whose largest value is `max`
/// reads from `s`: an optional `'+'`, then one or more decimal digits.
pub open spec fn parse_unsigned(s: Seq<char>, max: nat) -> Option<nat> {
    let d = unsigned_digits(s);
    if d.len() > 0 && all_digits(d) && decimal_value(d) <= max {
        Some(decimal_value(d))
    } else {
        None
    }
}

/// What `FromStr` of a signed integer type with range `-(max + 1) ..= max`
/// reads from `s`: an optional `'+'` or `'-'`, then one or more digits.
pub open spec fn parse_signed(s: Seq<char>, max: nat) -> Option<int> {
    if s.len() > 0 && s[0] == '-' {
        let d = s.drop_first();
        if d.len() > 0 && all_digits(d) && decimal_value(d) <= max + 1 {
            Some(-(decimal_value(d) as int))
        } else {
            None
        }
    } else {
        match parse_unsigned(s, max) {
            Some(v) => Some(v as int),
            None => None,
        }
    }
}

pub fn is_digit_char(c: char) -> (r: bool)
    ensures
        r == is_digit(c),
{
    let u = c as u32;
    48 <= u && u <= 57
}

/// Value of the digits `v[from..to]` if they are one or more decimal digits
/// denoting at most `max`.
pub fn decimal_in(v: &Vec<char>, from: usize, to: usize, max: u64) -> (r: Option<u64>)
    requires
        from <= to <= v.len(),
    ensures
        ({
            let d = v@.subrange(from as int, to as int);
            r == if d.len() > 0 && all_digits(d) && decimal_value(d) <= max {
                Some(decimal_value(d) as u64)
            } else {
                None
            }
        }),
{
    let ghost d = v@.subrange(from as int, to as int);
    if from == to {
        return None;
    }
    let mut acc: u128 = 0;
    let mut i: usize = from;
    assert(d.take(0) =~= Seq::<char>::empty());
    while i < to
        invariant
            from <= i <= to <= v.len(),
            d == v@.subrange(from as int, to as int),
            forall|k: int| 0 <= k < i - from ==> is_digit(#[trigger] d[k]),
            acc == if decimal_value(d.take(i - from)) > max {
                max as nat + 1
            } else {
                decimal_value(d.take(i - from))
            },
        decreases to - i,
    {
        if !is_digit_char(v[i]) {
            assert(!is_digit(d[i - from]));
            return None;
        }
        let dig = (v[i] as u32 - 48) as u128;
        proof {
            assert(d.take(i - from + 1).drop_last() =~= d.take(i - from));
            assert(d.take(i - from + 1).last() == v@[i as int]);
        }
        if acc > max as u128 {
            acc = max as u128 + 1;
        } else {
            acc = acc * 10 + dig;
            if acc > max as u128 {
                acc = max as u128 + 1;
            }
        }
        i = i + 1;
    }
    assert(d.take(to - from) =~= d);
    if acc > max as u128 {
        None
    } else {
        Some(acc as u64)
    }
}

pub fn parse_unsigned_chars(v: &Vec<char>, max: u64) -> (r: Option<u64>)
    ensures
        r == match parse_unsigned(v@, max as nat) {
            Some(n) => Some(n as u64),
            None => None::<u64>,
        },
{
    if v.len() > 0 && v[0] == '+' {
        assert(v@.subrange(1, v.len() as int) =~= v@.drop_first());
        decimal_in(v, 1, v.len(), max)
    } else {
        assert(v@.subrange(0, v.len() as int) =~= v@);
        decimal_in(v, 0, v.len(), max)
    }
}

pub fn parse_u8_chars(v: &Vec<char>) -> (r: Option<u8>)
    ensures
        r == match parse_unsigned(v@, 255) {
            Some(n) => Some(n as u8),
            None => None::<u8>,
        },
{
    match parse_unsigned_chars(v, 255) {
        Some(n) => Some(n as u8),
        None => None,
    }
}

pub fn parse_u64_chars(v: &Vec<char>) -> (r: Option<u64>)
    ensures
        r == match parse_unsigned(v@, u64::MAX as nat) {
            Some(n) => Some(n as u64),
            None => None::<u64>,
        },
{
    parse_unsigned_chars(v, u64::MAX)
}

pub fn parse_i32_chars(v: &Vec<char>) -> (r: Option<i32>)
    ensures
        r == match parse_signed(v@, i32::MAX as nat) {
            Some(n) => Some(n as i32),
            None => None::<i32>,
        },
{
    if v.len() > 0 && v[0] == '-' {
        assert(v@.subrange(1, v.len() as int) =~= v@.drop_first());
        match decimal_in(v, 1, v.len(), 0x8000_0000) {
            Some(n) => {
                if n == 0x8000_0000 {
                    Some(i32::MIN)
                } else {
                    Some(-(n as i32))
                }
            },
            None => None,
        }
    } else {
        match parse_unsigned_chars(v, i32::MAX as u64) {
            Some(n) => Some(n as i32),
            None => None,
        }
    }
}

/// The character of the decimal digit `d`.
pub open spec fn digit_char(d: nat) -> char {
    if d == 0 {
        '0'
    } else if d == 1 {
        '1'
    } else if d == 2 {
        '2'
    } else if d == 3 {
        '3'
    } else if d == 4 {
        '4'
    } else if d == 5 {
        '5'
    } else if d == 6 {
        '6'
    } else if d == 7 {
        '7'
    } else if d == 8 {
        '8'
    } else {
        '9'
    }
}

/// The decimal representation of `n`, without leading zeros.
pub open spec fn decimal(n: nat) -> Seq<char>
    decreases n,
{
    if n < 10 {
        seq![digit_char(n)]
    } else {
        decimal(n / 10).push(digit_char(n % 10))
    }
}

/// The decimal representation of `x`, with a leading `'-'` when negative.
pub open spec fn signed_decimal(x: int) -> Seq<char> {
    if x < 0 {
        seq!['-'] + decimal((-x) as nat)
    } else {
        decimal(x as nat)
    }
}

pub fn digit_to_char(d: u64) -> (c: char)
    requires
        d < 10,
    ensures
        c == digit_char(d as nat),
{
    if d == 0 {
        '0'
    } else if d == 1 {
        '1'
    } else if d == 2 {
        '2'
    } else if d == 3 {
        '3'
    } else if d == 4 {
        '4'
    } else if d == 5 {
        '5'
    } else if d == 6 {
        '6'
    } else if d == 7 {
        '7'
    } else if d == 8 {
        '8'
    } else {
        '9'
    }
}

/// Appends the decimal representation of `n` to `out`.
pub fn push_decimal(out: &mut Vec<char>, n: u64)
    ensures
        final(out)@ == old(out)@ + decimal(n as nat),
    decreases n,
{
    if n < 10 {
        out.push(digit_to_char(n));
        assert(old(out)@.push(digit_char(n as nat)) =~= old(out)@ + decimal(n as nat));
    } else {
        push_decimal(out, n / 10);
        out.push(digit_to_char(n % 10));
        assert(old(out)@ + decimal((n / 10) as nat) + seq![digit_char((n % 10) as nat)]
            =~= old(out)@ + decimal(n as nat));
    }
}

/// Appends the decimal representation of `x` to `out`.
pub fn push_signed_decimal(out: &mut Vec<char>, x: i64)
    ensures
        final(out)@ == old(out)@ + signed_decimal(x as int),
{
    if x < 0 {
        out.push('-');
        let m: u64 = if x == i64::MIN {
            0x8000_0000_0000_0000
        } else {
            (-x) as u64
        };
        push_decimal(out, m);
        assert(old(out)@.push('-') + decimal(m as nat) =~= old(out)@ + (seq!['-'] + decimal(
            m as nat,
        )));
    } else {
        push_decimal(out, x as u64);
    }
}

pub proof fn lemma_digit_char(d: nat)
    requires
        d < 10,
    ensures
        is_digit(digit_char(d)),
        digit_value(digit_char(d)) == d,
{
}

/// Reading back a decimal representation gives the number.
pub proof fn lemma_decimal_roundtrip(n: nat)
    ensures
        decimal(n).len() > 0,
        all_digits(decimal(n)),
        decimal_value(decimal(n)) == n,
    decreases n,
{
    if n < 10 {
        lemma_digit_char(n);
        assert(decimal(n).drop_last() =~= Seq::<char>::empty());
        assert(decimal_value(Seq::<char>::empty()) == 0);
        assert(decimal_value(decimal(n)) == decimal_value(decimal(n).drop_last()) * 10
            + digit_value(decimal(n).last()));
    } else {
        lemma_decimal_roundtrip(n / 10);
        lemma_digit_char(n % 10);
        assert(decimal(n).last() == digit_char(n % 10));
        assert(n == (n / 10) * 10 + n % 10);
        assert(decimal_value(decimal(n)) == decimal_value(decimal(n).drop_last()) * 10
            + digit_value(decimal(n).last()));
        assert(decimal(n).drop_last() =~= decimal(n / 10));
        assert forall|i: int| 0 <= i < decimal(n).len() implies is_digit(#[trigger] decimal(n)[i]) by {
            if i < decimal(n).len() - 1 {
                assert(decimal(n)[i] == decimal(n / 10)[i]);
            }
        }
    }
}

} // verus!
