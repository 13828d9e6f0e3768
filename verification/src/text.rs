use vstd::prelude::*;
use vstd::utf8::is_ascii_chars;

verus! {

broadcast use vstd::string::group_string_axioms;

/// The characters of `s`, in order.
pub fn chars_of(s: &str) -> (v: Vec<char>)
    ensures
        v@ == s@,
{
    let mut v: Vec<char> = Vec::new();
    for c in iter: s.chars()
        invariant
            iter.seq() == s@,
            v@ == s@.take(iter.index() as int),
    {
        v.push(c);
        proof {
            assert(v@ =~= s@.take(iter.index() as int + 1));
        }
    }
    proof {
        assert(v@ =~= s@);
    }
    v
}

/// A string made of the characters `v`, built by std's
/// `String::from_iter` over the characters of the vector, which appends them
/// in the order they come.
#[verifier::external_body]
pub(crate) fn string_of(v: &Vec<char>) -> (s: String)
    ensures
        s@ == v@,
{
    String::from_iter(v)
}

/// The lowercase form of `s`, as `str::to_lowercase` gives it.
pub uninterp spec fn spec_to_lowercase(s: Seq<char>) -> Seq<char>;

/// Whether every character of `s` is ASCII.
pub open spec fn all_ascii(s: Seq<char>) -> bool {
    is_ascii_chars(s)
}

/// The ASCII lowercase of `c`: `A` to `Z` become `a` to `z`, anything else
/// stays.
pub open spec fn ascii_lower(c: char) -> char {
    if 'A' <= c <= 'Z' {
        ((c as u32) + 32) as char
    } else {
        c
    }
}

/// The ASCII lowercase of every character of `s`.
pub open spec fn ascii_lowercase(s: Seq<char>) -> Seq<char> {
    s.map_values(|c: char| ascii_lower(c))
}

/// The lowercase form of `s`: the ASCII lowercase of a string made only of
/// ASCII characters, the named lowercase form of any other.
pub open spec fn lowercased(s: Seq<char>) -> Seq<char> {
    if all_ascii(s) {
        ascii_lowercase(s)
    } else {
        spec_to_lowercase(s)
    }
}

/// std's `str::to_lowercase`: the result is the name for the lowercase form
/// of the argument. Of a string made only of ASCII characters it is stated
/// that each character maps to its ASCII lowercase, one for one (the Unicode
/// lowercase mapping of `A` to `Z` is `a` to `z`, and other ASCII characters
/// have none, so they stay). It is also stated that a `+` in the result
/// comes from a `+` in the argument: the lowercase mapping that std applies
/// to each character changes only characters that have a case, and `+` has
/// none and is the lowercase form of no character. Nothing more is stated of
/// the mapping of other characters.
#[verifier::external_body]
pub(crate) fn to_lowercase(s: &str) -> (r: String)
    ensures
        r@ == spec_to_lowercase(s@),
        all_ascii(s@) ==> r@ == ascii_lowercase(s@),
        !s@.contains('+') ==> !r@.contains('+'),
{
    s.to_lowercase()
}

/// Whether `a` and `b` hold the same characters.
pub fn str_eq(a: &str, b: &str) -> (r: bool)
    ensures
        r == (a@ == b@),
{
    let n = a.unicode_len();
    if n != b.unicode_len() {
        return false;
    }
    let mut i: usize = 0;
    while i < n
        invariant
            n == a@.len(),
            n == b@.len(),
            i <= n,
            forall|j: int| 0 <= j < i ==> a@[j] == b@[j],
        decreases n - i,
    {
        if a.get_char(i) != b.get_char(i) {
            return false;
        }
        i = i + 1;
    }
    proof {
        assert(a@ =~= b@);
    }
    true
}

/// Whether `s` begins with `p`.
pub open spec fn has_prefix(s: Seq<char>, p: Seq<char>) -> bool {
    p.len() <= s.len() && s.take(p.len() as int) == p
}

/// Whether `s` begins with `p`.
pub fn starts_with_str(s: &str, p: &str) -> (r: bool)
    ensures
        r == has_prefix(s@, p@),
{
    let n = s.unicode_len();
    let m = p.unicode_len();
    if m > n {
        return false;
    }
    let mut i: usize = 0;
    while i < m
        invariant
            n == s@.len(),
            m == p@.len(),
            m <= n,
            i <= m,
            forall|j: int| 0 <= j < i ==> s@[j] == p@[j],
        decreases m - i,
    {
        if s.get_char(i) != p.get_char(i) {
            proof {
                assert(s@.take(m as int)[i as int] != p@[i as int]);
            }
            return false;
        }
        i = i + 1;
    }
    proof {
        assert(s@.take(m as int) =~= p@);
    }
    true
}

/// Whether the characters `v` are those of `b`.
pub fn chars_eq(v: &Vec<char>, b: &str) -> (r: bool)
    ensures
        r == (v@ == b@),
{
    let n = v.len();
    if n != b.unicode_len() {
        return false;
    }
    let mut i: usize = 0;
    while i < n
        invariant
            n == v@.len(),
            n == b@.len(),
            i <= n,
            forall|j: int| 0 <= j < i ==> v@[j] == b@[j],
        decreases n - i,
    {
        if v[i] != b.get_char(i) {
            return false;
        }
        i = i + 1;
    }
    proof {
        assert(v@ =~= b@);
    }
    true
}

/// The Unicode White_Space property, which `char::is_whitespace` tests.
pub open spec fn is_white_space(c: char) -> bool {
    let u = c as u32;
    ||| 0x9 <= u <= 0xD
    ||| u == 0x20
    ||| u == 0x85
    ||| u == 0xA0
    ||| u == 0x1680
    ||| 0x2000 <= u <= 0x200A
    ||| u == 0x2028
    ||| u == 0x2029
    ||| u == 0x202F
    ||| u == 0x205F
    ||| u == 0x3000
}

/// Whether `c` has the Unicode White_Space property.
pub fn is_whitespace(c: char) -> (r: bool)
    ensures
        r == is_white_space(c),
{
    let u = c as u32;
    (0x9 <= u && u <= 0xD) || u == 0x20 || u == 0x85 || u == 0xA0 || u == 0x1680 || (0x2000 <= u
        && u <= 0x200A) || u == 0x2028 || u == 0x2029 || u == 0x202F || u == 0x205F || u == 0x3000
}

/// `s` without its leading white space.
pub open spec fn trim_start(s: Seq<char>) -> Seq<char>
    decreases s.len(),
{
    if s.len() > 0 && is_white_space(s[0]) {
        trim_start(s.drop_first())
    } else {
        s
    }
}

/// `s` without its trailing white space.
pub open spec fn trim_end(s: Seq<char>) -> Seq<char>
    decreases s.len(),
{
    if s.len() > 0 && is_white_space(s.last()) {
        trim_end(s.drop_last())
    } else {
        s
    }
}

/// `s` without its leading and trailing white space, as `str::trim` gives it.
pub open spec fn trim(s: Seq<char>) -> Seq<char> {
    trim_end(trim_start(s))
}

/// `s` without its leading and trailing white space.
pub fn trim_chars(s: &Vec<char>) -> (r: Vec<char>)
    ensures
        r@ == trim(s@),
{
    let n = s.len();
    let mut i: usize = 0;
    proof {
        assert(s@.skip(0) =~= s@);
    }
    while i < n && is_whitespace(s[i])
        invariant
            n == s@.len(),
            i <= n,
            trim_start(s@) == trim_start(s@.skip(i as int)),
        decreases n - i,
    {
        proof {
            assert(s@.skip(i as int).drop_first() =~= s@.skip(i + 1));
        }
        i = i + 1;
    }
    let ghost start = s@.skip(i as int);
    proof {
        assert(trim_start(start) == start);
        assert(trim_start(s@) == start);
    }
    let mut j: usize = n;
    while j > i && is_whitespace(s[j - 1])
        invariant
            n == s@.len(),
            i <= j <= n,
            start == s@.skip(i as int),
            trim_end(start) == trim_end(s@.subrange(i as int, j as int)),
        decreases j,
    {
        proof {
            assert(s@.subrange(i as int, j as int).drop_last() =~= s@.subrange(i as int, j - 1));
        }
        j = j - 1;
    }
    proof {
        assert(s@.skip(i as int) =~= s@.subrange(i as int, n as int));
    }
    let mut r: Vec<char> = Vec::new();
    let mut k: usize = i;
    while k < j
        invariant
            n == s@.len(),
            i <= k <= j <= n,
            r@ == s@.subrange(i as int, k as int),
        decreases j - k,
    {
        r.push(s[k]);
        proof {
            assert(r@ =~= s@.subrange(i as int, k + 1));
        }
        k = k + 1;
    }
    r
}

/// `s` with every match of `from` replaced by `to`, matches taken from the
/// left and not overlapping, as `str::replace` gives it.
pub open spec fn replace_all(s: Seq<char>, from: Seq<char>, to: Seq<char>) -> Seq<char>
    decreases s.len(),
{
    if s.len() == 0 || from.len() == 0 {
        s
    } else if from.len() <= s.len() && s.take(from.len() as int) == from {
        to + replace_all(s.skip(from.len() as int), from, to)
    } else {
        seq![s[0]] + replace_all(s.drop_first(), from, to)
    }
}

/// Whether `from` occurs in `s` at index `i`.
fn matches_at(s: &Vec<char>, i: usize, from: &Vec<char>) -> (r: bool)
    requires
        i <= s@.len(),
    ensures
        r == (from@.len() <= s@.len() - i && s@.skip(i as int).take(from@.len() as int) == from@),
{
    let m = from.len();
    if m > s.len() - i {
        return false;
    }
    let mut j: usize = 0;
    while j < m
        invariant
            m == from@.len(),
            i <= s@.len(),
            s@.len() <= usize::MAX,
            m <= s@.len() - i,
            j <= m,
            forall|t: int| 0 <= t < j ==> s@[i + t] == from@[t],
        decreases m - j,
    {
        if s[i + j] != from[j] {
            proof {
                assert(s@.skip(i as int).take(m as int)[j as int] != from@[j as int]);
            }
            return false;
        }
        j = j + 1;
    }
    proof {
        assert(s@.skip(i as int).take(m as int) =~= from@);
    }
    true
}

/// `s` with every match of `from` replaced by `to`.
pub fn replace_chars(s: &Vec<char>, from: &str, to: &str) -> (r: Vec<char>)
    requires
        from@.len() > 0,
    ensures
        r@ == replace_all(s@, from@, to@),
{
    let from_v = chars_of(from);
    let to_v = chars_of(to);
    let n = s.len();
    let m = from_v.len();
    let mut r: Vec<char> = Vec::new();
    let mut i: usize = 0;
    proof {
        assert(s@.skip(0) =~= s@);
        assert(r@ + replace_all(s@, from@, to@) =~= replace_all(s@, from@, to@));
    }
    while i < n
        invariant
            n == s@.len(),
            m == from@.len(),
            m > 0,
            from_v@ == from@,
            to_v@ == to@,
            i <= n,
            replace_all(s@, from@, to@) == r@ + replace_all(s@.skip(i as int), from@, to@),
        decreases n - i,
    {
        let ghost rest = s@.skip(i as int);
        if matches_at(s, i, &from_v) {
            let ghost before = r@;
            let mut k: usize = 0;
            while k < to_v.len()
                invariant
                    r@ == before + to_v@.take(k as int),
                    k <= to_v@.len(),
                decreases to_v@.len() - k,
            {
                r.push(to_v[k]);
                proof {
                    assert(r@ =~= before + to_v@.take(k + 1));
                }
                k = k + 1;
            }
            proof {
                assert(to_v@.take(to_v@.len() as int) =~= to_v@);
                assert(rest.skip(m as int) =~= s@.skip(i + m));
                assert(before + (to@ + replace_all(rest.skip(m as int), from@, to@)) =~= r@
                    + replace_all(s@.skip(i + m), from@, to@));
            }
            i = i + m;
        } else {
            let ghost before = r@;
            r.push(s[i]);
            proof {
                assert(rest.drop_first() =~= s@.skip(i + 1));
                assert(rest[0] == s@[i as int]);
                assert(before + (seq![rest[0]] + replace_all(rest.drop_first(), from@, to@)) =~= r@
                    + replace_all(s@.skip(i + 1), from@, to@));
            }
            i = i + 1;
        }
    }
    proof {
        assert(s@.skip(n as int) =~= Seq::<char>::empty());
        assert(r@ + Seq::<char>::empty() =~= r@);
    }
    r
}

/// The pieces of `s` between occurrences of `sep`, given the pieces `done`
/// already cut and the piece `cur` being read.
pub open spec fn split_acc(s: Seq<char>, sep: char, done: Seq<Seq<char>>, cur: Seq<char>) -> Seq<
    Seq<char>,
>
    decreases s.len(),
{
    if s.len() == 0 {
        done.push(cur)
    } else if s[0] == sep {
        split_acc(s.drop_first(), sep, done.push(cur), seq![])
    } else {
        split_acc(s.drop_first(), sep, done, cur.push(s[0]))
    }
}

/// The pieces of `s` between occurrences of `sep`, empty ones included, as
/// `str::split` with a character pattern gives them.
pub open spec fn split_on(s: Seq<char>, sep: char) -> Seq<Seq<char>> {
    split_acc(s, sep, seq![], seq![])
}

/// Splitting does not depend on the pieces already cut.
pub proof fn lemma_split_acc_prefix(s: Seq<char>, sep: char, done: Seq<Seq<char>>, cur: Seq<char>)
    ensures
        split_acc(s, sep, done, cur) == done + split_acc(s, sep, seq![], cur),
    decreases s.len(),
{
    if s.len() == 0 {
        assert(done.push(cur) =~= done + seq![cur]);
    } else if s[0] == sep {
        lemma_split_acc_prefix(s.drop_first(), sep, done.push(cur), seq![]);
        lemma_split_acc_prefix(s.drop_first(), sep, seq![cur], seq![]);
        assert(done.push(cur) + split_acc(s.drop_first(), sep, seq![], seq![]) =~= done + (seq![cur]
            + split_acc(s.drop_first(), sep, seq![], seq![])));
    } else {
        lemma_split_acc_prefix(s.drop_first(), sep, done, cur.push(s[0]));
        lemma_split_acc_prefix(s.drop_first(), sep, seq![], cur.push(s[0]));
    }
}

/// Reading a piece free of `sep` adds it to the piece being read.
pub proof fn lemma_split_acc_plain(w: Seq<char>, rest: Seq<char>, sep: char, done: Seq<Seq<char>>, cur: Seq<char>)
    requires
        !w.contains(sep),
    ensures
        split_acc(w + rest, sep, done, cur) == split_acc(rest, sep, done, cur + w),
    decreases w.len(),
{
    if w.len() == 0 {
        assert(w + rest =~= rest);
        assert(cur + w =~= cur);
    } else {
        assert(w[0] != sep) by {
            if w[0] == sep {
                assert(w.contains(sep));
            }
        }
        assert((w + rest).drop_first() =~= w.drop_first() + rest);
        assert(!w.drop_first().contains(sep)) by {
            if w.drop_first().contains(sep) {
                let i = choose|i: int| 0 <= i < w.drop_first().len() && w.drop_first()[i] == sep;
                assert(w[i + 1] == sep);
            }
        }
        lemma_split_acc_plain(w.drop_first(), rest, sep, done, cur.push(w[0]));
        assert(cur.push(w[0]) + w.drop_first() =~= cur + w);
    }
}

/// A piece free of `sep`, then `sep`, splits off as the first piece.
pub proof fn lemma_split_first_piece(w: Seq<char>, rest: Seq<char>, sep: char)
    requires
        !w.contains(sep),
    ensures
        split_on(w + seq![sep] + rest, sep) == seq![w] + split_on(rest, sep),
{
    assert(w + seq![sep] + rest =~= w + (seq![sep] + rest));
    lemma_split_acc_plain(w, seq![sep] + rest, sep, seq![], seq![]);
    assert(Seq::<char>::empty() + w =~= w);
    let t = seq![sep] + rest;
    assert(t.drop_first() =~= rest);
    lemma_split_acc_prefix(rest, sep, seq![w], seq![]);
    assert(Seq::<Seq<char>>::empty().push(w) =~= seq![w]);
}

/// A piece free of `sep` splits into itself alone.
pub proof fn lemma_split_single_piece(w: Seq<char>, sep: char)
    requires
        !w.contains(sep),
    ensures
        split_on(w, sep) == seq![w],
{
    lemma_split_acc_plain(w, seq![], sep, seq![], seq![]);
    assert(w + Seq::<char>::empty() =~= w);
    assert(Seq::<char>::empty() + w =~= w);
    assert(Seq::<Seq<char>>::empty().push(w) =~= seq![w]);
}

/// The views of a list of character vectors.
pub open spec fn views(v: Seq<Vec<char>>) -> Seq<Seq<char>> {
    v.map_values(|x: Vec<char>| x@)
}

/// The pieces of `s` between occurrences of `sep`.
pub fn split_chars(s: &Vec<char>, sep: char) -> (r: Vec<Vec<char>>)
    ensures
        views(r@) == split_on(s@, sep),
{
    let n = s.len();
    let mut done: Vec<Vec<char>> = Vec::new();
    let mut cur: Vec<char> = Vec::new();
    let mut i: usize = 0;
    proof {
        assert(s@.skip(0) =~= s@);
        assert(views(done@) =~= Seq::<Seq<char>>::empty());
        assert(cur@ =~= Seq::<char>::empty());
    }
    while i < n
        invariant
            n == s@.len(),
            i <= n,
            split_on(s@, sep) == split_acc(s@.skip(i as int), sep, views(done@), cur@),
        decreases n - i,
    {
        proof {
            assert(s@.skip(i as int).drop_first() =~= s@.skip(i + 1));
        }
        if s[i] == sep {
            let piece = cur;
            let ghost before = views(done@);
            let ghost pv = piece@;
            done.push(piece);
            cur = Vec::new();
            proof {
                assert(views(done@) =~= before.push(pv));
            }
        } else {
            cur.push(s[i]);
        }
        i = i + 1;
    }
    let ghost before = views(done@);
    let ghost cv = cur@;
    done.push(cur);
    proof {
        assert(views(done@) =~= before.push(cv));
    }
    done
}

/// A line without the carriage return that ends it, if any.
pub open spec fn strip_cr(line: Seq<char>) -> Seq<char> {
    if line.len() > 0 && line.last() == '\r' {
        line.drop_last()
    } else {
        line
    }
}

/// The lines of `s`, as `str::lines` gives them: the pieces between line
/// feeds, a carriage return before a line feed dropped, and no empty last
/// line after a final line feed.
pub open spec fn lines(s: Seq<char>) -> Seq<Seq<char>> {
    let p = split_on(s, '\n');
    let n = p.len();
    Seq::new((n - 1) as nat, |i: int| strip_cr(p[i])) + if p[n - 1].len() > 0 {
        seq![p[n - 1]]
    } else {
        seq![]
    }
}

proof fn lemma_split_acc_nonempty(s: Seq<char>, sep: char, done: Seq<Seq<char>>, cur: Seq<char>)
    ensures
        split_acc(s, sep, done, cur).len() >= done.len() + 1,
    decreases s.len(),
{
    if s.len() > 0 {
        if s[0] == sep {
            lemma_split_acc_nonempty(s.drop_first(), sep, done.push(cur), seq![]);
        } else {
            lemma_split_acc_nonempty(s.drop_first(), sep, done, cur.push(s[0]));
        }
    }
}

/// A split gives at least one piece.
pub proof fn lemma_split_nonempty(s: Seq<char>, sep: char)
    ensures
        split_on(s, sep).len() >= 1,
{
    lemma_split_acc_nonempty(s, sep, seq![], seq![]);
}

/// The lines of `s`.
pub fn lines_of(s: &Vec<char>) -> (r: Vec<Vec<char>>)
    ensures
        views(r@) == lines(s@),
{
    let pieces = split_chars(s, '\n');
    proof {
        lemma_split_nonempty(s@, '\n');
    }
    let ghost p = split_on(s@, '\n');
    let n = pieces.len();
    let mut out: Vec<Vec<char>> = Vec::new();
    let mut i: usize = 0;
    while i + 1 < n
        invariant
            n == pieces@.len(),
            n >= 1,
            p == views(pieces@),
            i <= n - 1,
            views(out@) == Seq::new(i as nat, |j: int| strip_cr(p[j])),
        decreases n - i,
    {
        let piece = &pieces[i];
        let m = piece.len();
        let mut line: Vec<char> = Vec::new();
        let keep = if m > 0 && piece[m - 1] == '\r' { m - 1 } else { m };
        let mut k: usize = 0;
        while k < keep
            invariant
                keep <= m,
                m == piece@.len(),
                k <= keep,
                line@ == piece@.take(k as int),
            decreases keep - k,
        {
            line.push(piece[k]);
            proof {
                assert(line@ =~= piece@.take(k + 1));
            }
            k = k + 1;
        }
        proof {
            assert(p[i as int] == piece@);
            assert(line@ =~= strip_cr(piece@));
        }
        let ghost before = views(out@);
        let ghost lv = line@;
        out.push(line);
        proof {
            assert(views(out@) =~= before.push(lv));
            assert(views(out@) =~= Seq::new((i + 1) as nat, |j: int| strip_cr(p[j])));
        }
        i = i + 1;
    }
    let last = &pieces[n - 1];
    let ghost before = views(out@);
    if last.len() > 0 {
        let mut line: Vec<char> = Vec::new();
        let mut k: usize = 0;
        while k < last.len()
            invariant
                k <= last@.len(),
                line@ == last@.take(k as int),
            decreases last@.len() - k,
        {
            line.push(last[k]);
            proof {
                assert(line@ =~= last@.take(k + 1));
            }
            k = k + 1;
        }
        proof {
            assert(line@ =~= last@);
        }
        let ghost lv = line@;
        out.push(line);
        proof {
            assert(views(out@) =~= before.push(lv));
            assert(views(out@) =~= lines(s@));
        }
    } else {
        proof {
            assert(views(out@) =~= lines(s@));
        }
    }
    out
}

/// Whether `p` occurs in `s`.
pub open spec fn contains_seq(s: Seq<char>, p: Seq<char>) -> bool {
    exists|i: int| 0 <= i && i + p.len() <= s.len() && #[trigger] s.subrange(i, i + p.len()) == p
}

/// Whether `p` occurs in `s`.
pub fn contains_str(s: &str, p: &str) -> (r: bool)
    ensures
        r == contains_seq(s@, p@),
{
    let sv = chars_of(s);
    let pv = chars_of(p);
    let n = sv.len();
    let m = pv.len();
    if m > n {
        return false;
    }
    let mut i: usize = 0;
    while i <= n - m
        invariant
            n == sv@.len(),
            m == pv@.len(),
            m <= n,
            sv@ == s@,
            pv@ == p@,
            forall|j: int| 0 <= j < i && j + p@.len() <= s@.len() ==> #[trigger] s@.subrange(j, j + p@.len()) != p@,
        decreases n - m + 1 - i,
    {
        if matches_at(&sv, i, &pv) {
            proof {
                assert(s@.skip(i as int).take(p@.len() as int) =~= s@.subrange(i as int, i + p@.len()));
            }
            return true;
        }
        proof {
            assert(s@.skip(i as int).take(p@.len() as int) =~= s@.subrange(i as int, i + p@.len()));
        }
        if i == n - m {
            return false;
        }
        i = i + 1;
    }
    false
}

/// Whether `c` is an ASCII decimal digit.
pub open spec fn is_digit(c: char) -> bool {
    '0' <= c <= '9'
}

/// Whether every character of `s` is an ASCII decimal digit.
pub open spec fn all_digits(s: Seq<char>) -> bool {
    forall|i: int| 0 <= i < s.len() ==> is_digit(#[trigger] s[i])
}

/// The number that the decimal digits `s` write.
pub open spec fn digits_value(s: Seq<char>) -> nat
    decreases s.len(),
{
    if s.len() == 0 {
        0
    } else {
        digits_value(s.drop_last()) * 10 + ((s.last() as u32) - ('0' as u32)) as nat
    }
}

/// What `u32::from_str` gives: an optional `+` and at least one decimal
/// digit, with a value that fits in a `u32`.
pub open spec fn spec_parse_u32(s: Seq<char>) -> Option<nat> {
    let d = if s.len() > 0 && s[0] == '+' { s.drop_first() } else { s };
    if d.len() == 0 || !all_digits(d) || digits_value(d) > u32::MAX {
        None
    } else {
        Some(digits_value(d))
    }
}

/// What `i32::from_str` gives: an optional `+` or `-` and at least one
/// decimal digit, with a value that fits in an `i32`.
pub open spec fn spec_parse_i32(s: Seq<char>) -> Option<int> {
    let neg = s.len() > 0 && s[0] == '-';
    let d = if s.len() > 0 && (s[0] == '+' || s[0] == '-') { s.drop_first() } else { s };
    if d.len() == 0 || !all_digits(d) {
        None
    } else {
        let v: int = if neg { -digits_value(d) } else { digits_value(d) as int };
        if i32::MIN <= v <= i32::MAX { Some(v) } else { None }
    }
}

/// The value of the decimal digits of `s` from `start` on, when they are all
/// digits, there is at least one, and the value is at most `limit`.
fn parse_digits(s: &Vec<char>, start: usize, limit: u64) -> (r: Option<u64>)
    requires
        start <= s@.len(),
        limit <= 0x1_0000_0000,
    ensures
        r == (if s@.len() > start && all_digits(s@.skip(start as int)) && digits_value(
            s@.skip(start as int),
        ) <= limit {
            Some(digits_value(s@.skip(start as int)) as u64)
        } else {
            None::<u64>
        }),
{
    let n = s.len();
    if n == start {
        return None;
    }
    let mut acc: u64 = 0;
    let mut over = false;
    let mut i: usize = start;
    while i < n
        invariant
            n == s@.len(),
            start <= i <= n,
            limit <= 0x1_0000_0000,
            all_digits(s@.subrange(start as int, i as int)),
            !over ==> acc == digits_value(s@.subrange(start as int, i as int)) && acc <= limit,
            over ==> digits_value(s@.subrange(start as int, i as int)) > limit,
        decreases n - i,
    {
        let c = s[i];
        if !('0' <= c && c <= '9') {
            proof {
                assert(s@.skip(start as int)[i - start] == c);
            }
            return None;
        }
        let v = (c as u32 - '0' as u32) as u64;
        let ghost prev = s@.subrange(start as int, i as int);
        let ghost next = s@.subrange(start as int, i + 1);
        proof {
            assert(next.drop_last() =~= prev);
            assert(next.last() == c);
            assert(all_digits(next));
        }
        if !over {
            acc = acc * 10 + v;
            if acc > limit {
                over = true;
            }
        }
        i = i + 1;
    }
    proof {
        assert(s@.subrange(start as int, n as int) =~= s@.skip(start as int));
    }
    if over {
        None
    } else {
        Some(acc)
    }
}

/// `u32::from_str` on the characters `s`.
pub fn parse_u32(s: &Vec<char>) -> (r: Option<u32>)
    ensures
        match r {
            Some(v) => spec_parse_u32(s@) == Some(v as nat),
            None => spec_parse_u32(s@) is None,
        },
{
    let start: usize = if s.len() > 0 && s[0] == '+' { 1 } else { 0 };
    proof {
        if start == 1 {
            assert(s@.drop_first() =~= s@.skip(1));
        } else {
            assert(s@ =~= s@.skip(0));
        }
    }
    match parse_digits(s, start, 0xFFFF_FFFF) {
        Some(v) => Some(v as u32),
        None => None,
    }
}

/// `i32::from_str` on the characters `s`.
pub fn parse_i32(s: &Vec<char>) -> (r: Option<i32>)
    ensures
        match r {
            Some(v) => spec_parse_i32(s@) == Some(v as int),
            None => spec_parse_i32(s@) is None,
        },
{
    let neg = s.len() > 0 && s[0] == '-';
    let start: usize = if s.len() > 0 && (s[0] == '+' || s[0] == '-') { 1 } else { 0 };
    proof {
        if start == 1 {
            assert(s@.drop_first() =~= s@.skip(1));
        } else {
            assert(s@ =~= s@.skip(0));
        }
    }
    let limit: u64 = if neg { 0x8000_0000 } else { 0x7FFF_FFFF };
    match parse_digits(s, start, limit) {
        Some(v) => {
            if neg {
                Some((0 - (v as i64)) as i32)
            } else {
                Some(v as i32)
            }
        },
        None => {
            proof {
                let d = s@.skip(start as int);
                if d.len() > 0 && all_digits(d) {
                    assert(digits_value(d) > limit);
                }
            }
            None
        },
    }
}

/// A replacement leaves `s` as it is when `s` lacks a character of the
/// pattern.
pub proof fn lemma_replace_missing_char(s: Seq<char>, from: Seq<char>, to: Seq<char>, c: char)
    requires
        from.contains(c),
        !s.contains(c),
    ensures
        replace_all(s, from, to) == s,
    decreases s.len(),
{
    if s.len() > 0 && from.len() > 0 {
        if from.len() <= s.len() && s.take(from.len() as int) == from {
            let j = choose|j: int| 0 <= j < from.len() && from[j] == c;
            assert(s[j] == s.take(from.len() as int)[j]);
            assert(false);
        } else {
            assert(!s.drop_first().contains(c)) by {
                if s.drop_first().contains(c) {
                    let j = choose|j: int| 0 <= j < s.drop_first().len() && s.drop_first()[j] == c;
                    assert(s[j + 1] == c);
                }
            }
            lemma_replace_missing_char(s.drop_first(), from, to, c);
            assert(seq![s[0]] + s.drop_first() =~= s);
        }
    }
}

/// A replacement leaves `s` as it is when `s` is shorter than the pattern.
pub proof fn lemma_replace_short(s: Seq<char>, from: Seq<char>, to: Seq<char>)
    requires
        s.len() < from.len(),
    ensures
        replace_all(s, from, to) == s,
    decreases s.len(),
{
    if s.len() > 0 {
        lemma_replace_short(s.drop_first(), from, to);
        assert(seq![s[0]] + s.drop_first() =~= s);
    }
}

/// A replacement of a pattern without `+` works on each side of a `+` on
/// its own.
pub proof fn lemma_replace_after_plus(x: Seq<char>, y: Seq<char>, from: Seq<char>, to: Seq<char>)
    requires
        x.len() > 0,
        x.last() == '+',
        !from.contains('+'),
    ensures
        replace_all(x + y, from, to) == replace_all(x, from, to) + replace_all(y, from, to),
    decreases x.len(),
{
    let s = x + y;
    let m = from.len();
    if m == 0 {
    } else if m <= s.len() && s.take(m as int) == from {
        assert(m < x.len()) by {
            if m >= x.len() {
                assert(s.take(m as int)[x.len() - 1] == '+');
                assert(from.contains('+'));
            }
        }
        assert(x.take(m as int) =~= s.take(m as int));
        assert(s.skip(m as int) =~= x.skip(m as int) + y);
        lemma_replace_after_plus(x.skip(m as int), y, from, to);
        assert(to + (replace_all(x.skip(m as int), from, to) + replace_all(y, from, to)) =~= (to
            + replace_all(x.skip(m as int), from, to)) + replace_all(y, from, to));
    } else {
        assert(!(m <= x.len() && x.take(m as int) == from)) by {
            if m <= x.len() && x.take(m as int) == from {
                assert(s.take(m as int) =~= x.take(m as int));
            }
        }
        assert(s[0] == x[0]);
        if x.len() == 1 {
            assert(x =~= seq!['+']);
            assert(x.drop_first() =~= Seq::<char>::empty());
            assert(replace_all(x.drop_first(), from, to) == Seq::<char>::empty());
            assert(s.drop_first() =~= y);
            assert(replace_all(x, from, to) =~= seq!['+']);
        } else {
            assert(s.drop_first() =~= x.drop_first() + y);
            lemma_replace_after_plus(x.drop_first(), y, from, to);
            assert(seq![x[0]] + (replace_all(x.drop_first(), from, to) + replace_all(y, from, to))
                =~= (seq![x[0]] + replace_all(x.drop_first(), from, to)) + replace_all(y, from, to));
        }
    }
}

/// Whether every character of `x` occurs in `s`.
pub open spec fn chars_within(x: Seq<char>, s: Seq<char>) -> bool {
    forall|i: int| 0 <= i < x.len() ==> s.contains(#[trigger] x[i])
}

proof fn lemma_trim_start_within(s: Seq<char>)
    ensures
        chars_within(trim_start(s), s),
    decreases s.len(),
{
    if s.len() > 0 && is_white_space(s[0]) {
        lemma_trim_start_within(s.drop_first());
        assert forall|i: int| 0 <= i < trim_start(s).len() implies s.contains(#[trigger] trim_start(s)[i]) by {
            let c = trim_start(s)[i];
            assert(s.drop_first().contains(c));
            let j = choose|j: int| 0 <= j < s.drop_first().len() && s.drop_first()[j] == c;
            assert(s[j + 1] == c);
        }
    } else {
        assert forall|i: int| 0 <= i < trim_start(s).len() implies s.contains(#[trigger] trim_start(s)[i]) by {
            assert(s[i] == trim_start(s)[i]);
        }
    }
}

proof fn lemma_trim_end_within(s: Seq<char>)
    ensures
        chars_within(trim_end(s), s),
    decreases s.len(),
{
    if s.len() > 0 && is_white_space(s.last()) {
        lemma_trim_end_within(s.drop_last());
        assert forall|i: int| 0 <= i < trim_end(s).len() implies s.contains(#[trigger] trim_end(s)[i]) by {
            let c = trim_end(s)[i];
            assert(s.drop_last().contains(c));
            let j = choose|j: int| 0 <= j < s.drop_last().len() && s.drop_last()[j] == c;
            assert(s[j] == c);
        }
    } else {
        assert forall|i: int| 0 <= i < trim_end(s).len() implies s.contains(#[trigger] trim_end(s)[i]) by {
            assert(s[i] == trim_end(s)[i]);
        }
    }
}

/// Trimming keeps only characters of `s`.
pub proof fn lemma_trim_within(s: Seq<char>)
    ensures
        chars_within(trim(s), s),
{
    lemma_trim_start_within(s);
    lemma_trim_end_within(trim_start(s));
    assert forall|i: int| 0 <= i < trim(s).len() implies s.contains(#[trigger] trim(s)[i]) by {
        assert(trim_start(s).contains(trim(s)[i]));
    }
}

/// A string of ASCII characters keeps only ASCII characters, and a string
/// without `+` keeps none, in what is made of its characters.
pub proof fn lemma_within_plain(x: Seq<char>, s: Seq<char>)
    requires
        chars_within(x, s),
    ensures
        all_ascii(s) ==> all_ascii(x),
        !s.contains('+') ==> !x.contains('+'),
{
    if all_ascii(s) {
        assert forall|i: int| 0 <= i < x.len() implies '\0' <= #[trigger] x[i] <= '\u{7f}' by {
            assert(s.contains(x[i]));
        }
    }
    if x.contains('+') {
        let j = choose|j: int| 0 <= j < x.len() && x[j] == '+';
        assert(s.contains(x[j]));
    }
}

/// The ASCII lowercase of a string of ASCII characters is one.
pub proof fn lemma_ascii_lowercase_plain(s: Seq<char>)
    ensures
        ascii_lowercase(s).len() == s.len(),
        all_ascii(s) ==> all_ascii(ascii_lowercase(s)),
        !s.contains('+') ==> !ascii_lowercase(s).contains('+'),
        ascii_lowercase(ascii_lowercase(s)) == ascii_lowercase(s),
{
    let l = ascii_lowercase(s);
    if all_ascii(s) {
        assert forall|i: int| 0 <= i < l.len() implies '\0' <= #[trigger] l[i] <= '\u{7f}' by {
            assert('\0' <= s[i] <= '\u{7f}');
        }
    }
    if l.contains('+') {
        let j = choose|j: int| 0 <= j < l.len() && l[j] == '+';
        assert(s[j] == '+');
    }
    assert(ascii_lowercase(l) =~= l);
}

/// The ASCII lowercase of two strings one after the other.
pub proof fn lemma_ascii_lowercase_concat(a: Seq<char>, b: Seq<char>)
    ensures
        ascii_lowercase(a + b) == ascii_lowercase(a) + ascii_lowercase(b),
{
    assert(ascii_lowercase(a + b) =~= ascii_lowercase(a) + ascii_lowercase(b));
}

proof fn lemma_split_acc_pieces(s: Seq<char>, sep: char, done: Seq<Seq<char>>, cur: Seq<char>, whole: Seq<char>)
    requires
        forall|i: int| 0 <= i < done.len() ==> chars_within(#[trigger] done[i], whole) && !done[i].contains(sep),
        chars_within(cur, whole),
        !cur.contains(sep),
        chars_within(s, whole),
    ensures
        forall|i: int| 0 <= i < split_acc(s, sep, done, cur).len() ==> chars_within(
            #[trigger] split_acc(s, sep, done, cur)[i],
            whole,
        ) && !split_acc(s, sep, done, cur)[i].contains(sep),
    decreases s.len(),
{
    if s.len() > 0 {
        assert(whole.contains(s[0]));
        assert(chars_within(s.drop_first(), whole)) by {
            assert forall|i: int| 0 <= i < s.drop_first().len() implies whole.contains(#[trigger] s.drop_first()[i]) by {
                assert(whole.contains(s[i + 1]));
            }
        }
        if s[0] == sep {
            let d = done.push(cur);
            assert forall|i: int| 0 <= i < d.len() implies chars_within(#[trigger] d[i], whole) && !d[i].contains(sep) by {
                if i < done.len() {
                    assert(d[i] == done[i]);
                }
            }
            lemma_split_acc_pieces(s.drop_first(), sep, d, seq![], whole);
            assert(split_acc(s, sep, done, cur) == split_acc(s.drop_first(), sep, d, seq![]));
        } else {
            let c = cur.push(s[0]);
            assert(chars_within(c, whole)) by {
                assert forall|i: int| 0 <= i < c.len() implies whole.contains(#[trigger] c[i]) by {
                    if i < cur.len() {
                        assert(c[i] == cur[i]);
                    }
                }
            }
            assert(!c.contains(sep)) by {
                if c.contains(sep) {
                    let j = choose|j: int| 0 <= j < c.len() && c[j] == sep;
                    if j < cur.len() {
                        assert(cur[j] == sep);
                    }
                }
            }
            lemma_split_acc_pieces(s.drop_first(), sep, done, c, whole);
            assert(split_acc(s, sep, done, cur) == split_acc(s.drop_first(), sep, done, c));
        }
    } else {
        let d = done.push(cur);
        assert(split_acc(s, sep, done, cur) == d);
        assert forall|i: int| 0 <= i < d.len() implies chars_within(#[trigger] d[i], whole) && !d[i].contains(sep) by {
            if i < done.len() {
                assert(d[i] == done[i]);
            }
        }
    }
}

/// Every piece of a split is made of characters of the text and holds no
/// separator.
pub proof fn lemma_split_pieces(s: Seq<char>, sep: char)
    ensures
        forall|i: int| 0 <= i < split_on(s, sep).len() ==> chars_within(#[trigger] split_on(s, sep)[i], s)
            && !split_on(s, sep)[i].contains(sep),
{
    assert forall|i: int| 0 <= i < s.len() implies s.contains(#[trigger] s[i]) by {}
    lemma_split_acc_pieces(s, sep, seq![], seq![], s);
}

} // verus!
