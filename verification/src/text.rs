//! Text helpers: whitespace words, trimming, joining, decimal numbers and the
//! byte order of strings.
use vstd::prelude::*;
use vstd::utf8::encode_utf8;

verus! {

broadcast use vstd::string::group_string_axioms;

/// Whether `c` has the Unicode `White_Space` property, which `char::is_whitespace`
/// tests: U+0009 to U+000D, U+0020, U+0085, U+00A0, U+1680, U+2000 to U+200A,
/// U+2028, U+2029, U+202F, U+205F and U+3000.
pub open spec fn unicode_white_space(c: char) -> bool {
    let u = c as u32;
    ||| 0x9 <= u <= 0xD
    ||| u == 0x20
    ||| u == 0x85
    ||| u == 0xA0
    ||| u == 0x1680
    ||| 0x2000 <= u <= 0x200A
    ||| u == 0x2028
    ||| u == 0x2029
    ||| u == 0x202F
    ||| u == 0x205F
    ||| u == 0x3000
}

/// The Unicode uppercase mapping of `c`, as `char::to_uppercase` yields it.
pub uninterp spec fn uppercase_mapping(c: char) -> Seq<char>;

/// The Unicode lowercase mapping of `c`, as `char::to_lowercase` yields it.
pub uninterp spec fn lowercase_mapping(c: char) -> Seq<char>;

/// Whether `c` is whitespace: has the Unicode `White_Space` property.
pub fn is_whitespace(c: char) -> (res: bool)
    ensures
        res == unicode_white_space(c),
{
    let u = c as u32;
    (0x9 <= u && u <= 0xD) || u == 0x20 || u == 0x85 || u == 0xA0 || u == 0x1680 || (0x2000 <= u
        && u <= 0x200A) || u == 0x2028 || u == 0x2029 || u == 0x202F || u == 0x205F || u == 0x3000
}

/// `char::to_uppercase`, collected into a string. Stated only through the name
/// `uppercase_mapping`.
#[verifier::external_body]
pub(crate) fn to_uppercase(c: char) -> (res: String)
    ensures
        res@ == uppercase_mapping(c),
{
    c.to_uppercase().collect::<String>()
}

/// `char::to_lowercase`, collected into a string. Stated only through the name
/// `lowercase_mapping`.
#[verifier::external_body]
pub(crate) fn to_lowercase(c: char) -> (res: String)
    ensures
        res@ == lowercase_mapping(c),
{
    c.to_lowercase().collect::<String>()
}

/// The ASCII digit for `d` (0 to 9).
pub open spec fn digit_char(d: nat) -> char {
    if d == 0 {
        '0'
    } else if d == 1 {
        '1'
    } else if d == 2 {
        '2'
    } else if d == 3 {
        '3'
    } else if d == 4 {
        '4'
    } else if d == 5 {
        '5'
    } else if d == 6 {
        '6'
    } else if d == 7 {
        '7'
    } else if d == 8 {
        '8'
    } else {
        '9'
    }
}

/// The decimal notation of `n`, without sign or leading zeros.
pub open spec fn decimal(n: nat) -> Seq<char>
    decreases n,
{
    if n < 10 {
        seq![digit_char(n)]
    } else {
        decimal(n / 10).push(digit_char(n % 10))
    }
}

/// The ASCII digit for `d`.
fn digit(d: u128) -> (res: char)
    requires
        d < 10,
    ensures
        res == digit_char(d as nat),
{
    if d == 0 {
        '0'
    } else if d == 1 {
        '1'
    } else if d == 2 {
        '2'
    } else if d == 3 {
        '3'
    } else if d == 4 {
        '4'
    } else if d == 5 {
        '5'
    } else if d == 6 {
        '6'
    } else if d == 7 {
        '7'
    } else if d == 8 {
        '8'
    } else {
        '9'
    }
}

/// Appends the decimal digits of `n`.
fn push_decimal(n: u128, out: &mut Vec<char>)
    ensures
        final(out)@ == old(out)@ + decimal(n as nat),
    decreases n,
{
    if n >= 10 {
        push_decimal(n / 10, out);
    }
    let d = digit(n % 10);
    out.push(d);
}

/// The decimal notation of `n`, as a string.
pub fn decimal_string(n: u128) -> (res: String)
    ensures
        res@ == decimal(n as nat),
{
    let mut digits: Vec<char> = Vec::new();
    push_decimal(n, &mut digits);
    proof {
        assert(digits@ =~= decimal(n as nat));
    }
    string_from_chars(&digits)
}

/// `String::from_iter` over characters: the string of `chars`, in order.
#[verifier::external_body]
pub(crate) fn string_from_chars(chars: &Vec<char>) -> (res: String)
    ensures
        res@ == chars@,
{
    chars.iter().collect::<String>()
}

/// The characters of `s`, in order.
pub fn chars_of(s: &str) -> (out: Vec<char>)
    ensures
        out@ == s@,
{
    let mut out: Vec<char> = Vec::new();
    for c in it: s.chars()
        invariant
            out@ == it.seq().take(it.index() as int),
            it.seq() == s@,
    {
        out.push(c);
    }
    out
}

/// The words found so far in `s`, and the word being read at its end.
pub open spec fn words_scan(s: Seq<char>) -> (Seq<Seq<char>>, Seq<char>)
    decreases s.len(),
{
    if s.len() == 0 {
        (Seq::empty(), Seq::empty())
    } else {
        let (done, current) = words_scan(s.drop_last());
        let c = s.last();
        if unicode_white_space(c) {
            if current.len() > 0 {
                (done.push(current), Seq::empty())
            } else {
                (done, current)
            }
        } else {
            (done, current.push(c))
        }
    }
}

/// The maximal runs of non-whitespace characters of `s`, in order: what
/// `str::split_whitespace` yields.
pub open spec fn words(s: Seq<char>) -> Seq<Seq<char>> {
    let (done, current) = words_scan(s);
    if current.len() > 0 {
        done.push(current)
    } else {
        done
    }
}

/// Every word is non-empty and holds no whitespace.
pub proof fn lemma_words_nonempty(s: Seq<char>)
    ensures
        forall|i: int| 0 <= i < words(s).len() ==> #[trigger] words(s)[i].len() > 0,
        forall|i: int, j: int|
            0 <= i < words(s).len() && 0 <= j < words(s)[i].len() ==> !unicode_white_space(
                #[trigger] words(s)[i][j],
            ),
{
    lemma_words_scan_nonempty(s);
}

proof fn lemma_words_scan_nonempty(s: Seq<char>)
    ensures
        forall|i: int| 0 <= i < words_scan(s).0.len() ==> #[trigger] words_scan(s).0[i].len() > 0,
        forall|i: int, j: int|
            0 <= i < words_scan(s).0.len() && 0 <= j < words_scan(s).0[i].len()
                ==> !unicode_white_space(#[trigger] words_scan(s).0[i][j]),
        forall|j: int|
            0 <= j < words_scan(s).1.len() ==> !unicode_white_space(#[trigger] words_scan(s).1[j]),
    decreases s.len(),
{
    if s.len() > 0 {
        lemma_words_scan_nonempty(s.drop_last());
        let (done, current) = words_scan(s.drop_last());
        let c = s.last();
        if !unicode_white_space(c) {
            let cur2 = current.push(c);
            assert forall|j: int| 0 <= j < cur2.len() implies !unicode_white_space(cur2[j]) by {
                if j < current.len() {
                    assert(cur2[j] == current[j]);
                }
            }
        }
    }
}

/// The whitespace-separated words of `s`, as `str::split_whitespace` yields them.
pub fn split_whitespace(s: &str) -> (res: Vec<Vec<char>>)
    ensures
        res@.map_values(|w: Vec<char>| w@) == words(s@),
{
    let chars = chars_of(s);
    let mut done: Vec<Vec<char>> = Vec::new();
    let mut current: Vec<char> = Vec::new();
    let mut i: usize = 0;
    while i < chars.len()
        invariant
            i <= chars.len(),
            chars@ == s@,
            (done@.map_values(|w: Vec<char>| w@), current@) == words_scan(s@.take(i as int)),
        decreases chars.len() - i,
    {
        let c = chars[i];
        proof {
            assert(s@.take(i + 1).drop_last() == s@.take(i as int));
            assert(s@.take(i + 1).last() == c);
        }
        if is_whitespace(c) {
            if current.len() > 0 {
                let ghost before = done@;
                let word = current;
                done.push(word);
                current = Vec::new();
                proof {
                    assert(done@.map_values(|w: Vec<char>| w@) == before.map_values(
                        |w: Vec<char>| w@,
                    ).push(word@));
                    assert(current@ == Seq::<char>::empty());
                }
            }
        } else {
            current.push(c);
        }
        i = i + 1;
    }
    proof {
        assert(s@.take(chars.len() as int) == s@);
    }
    if current.len() > 0 {
        let ghost before = done@;
        let word = current;
        done.push(word);
        proof {
            assert(done@.map_values(|w: Vec<char>| w@) == before.map_values(|w: Vec<char>| w@).push(
                word@,
            ));
        }
    }
    done
}

/// Two placeholder question marks.
pub open spec fn unknown_initials() -> Seq<char> {
    seq!['?', '?']
}

/// The initials shown for a workspace named `name`: no word gives "??"; one
/// word gives its first letter in upper case and its second in lower case (or
/// the first alone); more words give the upper-cased first letters of the
/// first two words.
pub open spec fn initials(name: Seq<char>) -> Seq<char> {
    let ws = words(name);
    if ws.len() == 0 {
        unknown_initials()
    } else if ws.len() == 1 {
        let w = ws[0];
        if w.len() >= 2 {
            uppercase_mapping(w[0]) + lowercase_mapping(w[1])
        } else if w.len() == 1 {
            uppercase_mapping(w[0])
        } else {
            unknown_initials()
        }
    } else {
        let a = ws[0];
        let b = ws[1];
        if a.len() > 0 && b.len() > 0 {
            uppercase_mapping(a[0]) + uppercase_mapping(b[0])
        } else if a.len() > 0 {
            uppercase_mapping(a[0])
        } else {
            unknown_initials()
        }
    }
}

/// The two question marks, as a string.
fn unknown_initials_string() -> (res: String)
    ensures
        res@ == unknown_initials(),
{
    let mut v: Vec<char> = Vec::new();
    v.push('?');
    v.push('?');
    proof {
        assert(v@ == unknown_initials());
    }
    string_from_chars(&v)
}

/// The initials shown in the icon of a workspace named `name`.
pub fn compute_initials(name: &str) -> (res: String)
    ensures
        res@ == initials(name@),
{
    let found = split_whitespace(name);
    proof {
        assert(found@.len() == words(name@).len());
    }
    if found.len() == 0 {
        unknown_initials_string()
    } else if found.len() == 1 {
        let first = &found[0];
        proof {
            assert(first@ == words(name@)[0]);
        }
        if first.len() >= 2 {
            let mut s = to_uppercase(first[0]);
            let lower = to_lowercase(first[1]);
            s.append(lower.as_str());
            s
        } else if first.len() == 1 {
            to_uppercase(first[0])
        } else {
            unknown_initials_string()
        }
    } else {
        let a = &found[0];
        let b = &found[1];
        proof {
            assert(a@ == words(name@)[0]);
            assert(b@ == words(name@)[1]);
        }
        if a.len() > 0 && b.len() > 0 {
            let mut s = to_uppercase(a[0]);
            let second = to_uppercase(b[0]);
            s.append(second.as_str());
            s
        } else if a.len() > 0 {
            to_uppercase(a[0])
        } else {
            unknown_initials_string()
        }
    }
}

/// `parts` joined, with `sep` between neighbours.
pub open spec fn join(parts: Seq<Seq<char>>, sep: Seq<char>) -> Seq<char>
    decreases parts.len(),
{
    if parts.len() == 0 {
        Seq::empty()
    } else if parts.len() == 1 {
        parts[0]
    } else {
        join(parts.drop_last(), sep) + sep + parts.last()
    }
}

/// The views of a list of strings.
pub open spec fn views(v: Seq<String>) -> Seq<Seq<char>> {
    v.map_values(|s: String| s@)
}

/// `parts` joined into one string with `sep` between neighbours.
pub fn join_strings(parts: &Vec<String>, sep: &str) -> (res: String)
    ensures
        res@ == join(views(parts@), sep@),
{
    let mut res = String::new();
    let mut i: usize = 0;
    while i < parts.len()
        invariant
            i <= parts.len(),
            res@ == join(views(parts@).take(i as int), sep@),
        decreases parts.len() - i,
    {
        proof {
            let t = views(parts@).take(i + 1);
            assert(t.drop_last() == views(parts@).take(i as int));
            assert(t.last() == parts@[i as int]@);
        }
        if i > 0 {
            res.append(sep);
        }
        res.append(parts[i].as_str());
        proof {
            if i == 0 {
                assert(views(parts@).take(1) =~= seq![parts@[0]@]);
                assert(res@ =~= parts@[0]@);
            }
        }
        i = i + 1;
    }
    proof {
        assert(views(parts@).take(parts.len() as int) == views(parts@));
    }
    res
}

/// Whether `a` comes before `b` in lexicographic order of bytes.
pub open spec fn bytes_lt(a: Seq<u8>, b: Seq<u8>) -> bool
    decreases a.len(),
{
    if a.len() == 0 {
        b.len() > 0
    } else if b.len() == 0 {
        false
    } else if a[0] != b[0] {
        a[0] < b[0]
    } else {
        bytes_lt(a.drop_first(), b.drop_first())
    }
}

/// Whether string `a` comes before string `b` in the order of `str`: the
/// lexicographic order of their UTF-8 bytes.
pub open spec fn str_lt(a: Seq<char>, b: Seq<char>) -> bool {
    bytes_lt(encode_utf8(a), encode_utf8(b))
}

proof fn lemma_bytes_lt_skip(a: Seq<u8>, b: Seq<u8>, i: int)
    requires
        0 <= i <= a.len(),
        i <= b.len(),
        a.take(i) == b.take(i),
    ensures
        bytes_lt(a, b) == bytes_lt(a.skip(i), b.skip(i)),
    decreases i,
{
    if i == 0 {
        assert(a.skip(0) =~= a);
        assert(b.skip(0) =~= b);
    } else {
        assert(a[0] == a.take(i)[0]);
        assert(b[0] == b.take(i)[0]);
        assert(a.drop_first().take(i - 1) =~= a.take(i).drop_first());
        assert(b.drop_first().take(i - 1) =~= b.take(i).drop_first());
        lemma_bytes_lt_skip(a.drop_first(), b.drop_first(), i - 1);
        assert(a.drop_first().skip(i - 1) =~= a.skip(i));
        assert(b.drop_first().skip(i - 1) =~= b.skip(i));
        assert(a.len() > 0 && b.len() > 0 && a[0] == b[0]);
        assert(bytes_lt(a, b) == bytes_lt(a.drop_first(), b.drop_first()));
    }
}

/// Whether `a < b` as strings, by comparing their bytes.
pub fn string_lt(a: &str, b: &str) -> (res: bool)
    ensures
        res == str_lt(a@, b@),
        forall|i: int|
            0 <= i < encode_utf8(a@).len() && i < encode_utf8(b@).len() && encode_utf8(a@).take(i)
                == encode_utf8(b@).take(i) && #[trigger] encode_utf8(a@)[i] != encode_utf8(b@)[i]
                ==> res == (encode_utf8(a@)[i] < encode_utf8(b@)[i]),
        encode_utf8(a@).len() <= encode_utf8(b@).len() && encode_utf8(b@).take(
            encode_utf8(a@).len() as int,
        ) == encode_utf8(a@) ==> res == (encode_utf8(a@).len() < encode_utf8(b@).len()),
        encode_utf8(b@).len() <= encode_utf8(a@).len() && encode_utf8(a@).take(
            encode_utf8(b@).len() as int,
        ) == encode_utf8(b@) ==> !res,
{
    proof {
        assert forall|i: int|
            0 <= i < encode_utf8(a@).len() && i < encode_utf8(b@).len() && encode_utf8(a@).take(i)
                == encode_utf8(b@).take(i) && #[trigger] encode_utf8(a@)[i] != encode_utf8(b@)[i]
                implies str_lt(a@, b@) == (encode_utf8(a@)[i] < encode_utf8(b@)[i]) by {
            lemma_str_lt_first_difference(a@, b@, i);
        }
        if encode_utf8(a@).len() <= encode_utf8(b@).len() && encode_utf8(b@).take(
            encode_utf8(a@).len() as int,
        ) == encode_utf8(a@) {
            lemma_str_lt_prefix(a@, b@);
        }
        if encode_utf8(b@).len() <= encode_utf8(a@).len() && encode_utf8(a@).take(
            encode_utf8(b@).len() as int,
        ) == encode_utf8(b@) {
            lemma_str_lt_prefix(b@, a@);
        }
    }
    let x = a.as_bytes();
    let y = b.as_bytes();
    let ghost xs = encode_utf8(a@);
    let ghost ys = encode_utf8(b@);
    let mut i: usize = 0;
    while i < x.len() && i < y.len()
        invariant
            xs == encode_utf8(a@),
            ys == encode_utf8(b@),
            x@ == xs,
            y@ == ys,
            i <= x.len(),
            i <= y.len(),
            xs.take(i as int) == ys.take(i as int),
            forall|k: int|
                0 <= k < xs.len() && k < ys.len() && xs.take(k) == ys.take(k) && #[trigger] xs[k]
                    != ys[k] ==> str_lt(a@, b@) == (xs[k] < ys[k]),
        decreases x.len() - i,
    {
        if x[i] != y[i] {
            proof {
                lemma_bytes_lt_skip(xs, ys, i as int);
                assert(xs.skip(i as int)[0] == x[i as int]);
                assert(ys.skip(i as int)[0] == y[i as int]);
                let (p, q) = (xs.skip(i as int), ys.skip(i as int));
                assert(p.len() > 0 && q.len() > 0 && p[0] != q[0]);
                assert(bytes_lt(p, q) == (p[0] < q[0]));
            }
            return x[i] < y[i];
        }
        proof {
            assert(xs.take(i + 1) == xs.take(i as int).push(xs[i as int]));
            assert(ys.take(i + 1) == ys.take(i as int).push(ys[i as int]));
        }
        i = i + 1;
    }
    proof {
        lemma_bytes_lt_skip(xs, ys, i as int);
    }
    i == x.len() && i < y.len()
}

/// Where `x` goes in the sorted list `s`: after every element that is not
/// greater than it.
pub open spec fn insert_position(s: Seq<Seq<char>>, x: Seq<char>) -> int
    decreases s.len(),
{
    if s.len() == 0 {
        0
    } else if str_lt(x, s.last()) {
        insert_position(s.drop_last(), x)
    } else {
        s.len() as int
    }
}

/// `s` sorted in the order of `str`, by insertion; equal strings keep their
/// order.
pub open spec fn sorted_strings(s: Seq<Seq<char>>) -> Seq<Seq<char>>
    decreases s.len(),
{
    if s.len() == 0 {
        s
    } else {
        let p = sorted_strings(s.drop_last());
        p.insert(insert_position(p, s.last()), s.last())
    }
}

/// `paths` sorted in the order of `str`.
pub fn sort_strings(paths: &Vec<String>) -> (res: Vec<String>)
    ensures
        views(res@) == sorted_strings(views(paths@)),
{
    let mut out: Vec<String> = Vec::new();
    let mut i: usize = 0;
    while i < paths.len()
        invariant
            i <= paths.len(),
            views(out@) == sorted_strings(views(paths@).take(i as int)),
        decreases paths.len() - i,
    {
        let x = paths[i].clone();
        let ghost sorted = views(out@);
        proof {
            let t = views(paths@).take(i + 1);
            assert(t.drop_last() == views(paths@).take(i as int));
            assert(t.last() == x@);
        }
        let mut j: usize = out.len();
        proof {
            assert(sorted.take(j as int) =~= sorted);
        }
        while j > 0 && string_lt(x.as_str(), out[j - 1].as_str())
            invariant
                j <= out.len(),
                views(out@) == sorted,
                insert_position(sorted, x@) == insert_position(sorted.take(j as int), x@),
            decreases j,
        {
            proof {
                let t = sorted.take(j as int);
                assert(t.drop_last() == sorted.take(j - 1));
                assert(t.last() == out@[j - 1]@);
            }
            j = j - 1;
        }
        proof {
            if j > 0 {
                let t = sorted.take(j as int);
                assert(t.last() == out@[j - 1]@);
                assert(t.len() == j);
            }
        }
        out.insert(j, x);
        proof {
            assert(views(out@) =~= sorted.insert(j as int, x@));
        }
        i = i + 1;
    }
    proof {
        assert(views(paths@).take(paths.len() as int) == views(paths@));
    }
    out
}

/// The number of leading whitespace characters of `s`.
pub open spec fn leading_white_space(s: Seq<char>) -> nat
    decreases s.len(),
{
    if s.len() > 0 && unicode_white_space(s[0]) {
        1 + leading_white_space(s.drop_first())
    } else {
        0
    }
}

/// The number of trailing whitespace characters of `s`.
pub open spec fn trailing_white_space(s: Seq<char>) -> nat
    decreases s.len(),
{
    if s.len() > 0 && unicode_white_space(s.last()) {
        1 + trailing_white_space(s.drop_last())
    } else {
        0
    }
}

/// `s` without leading and trailing whitespace, as `str::trim` returns it.
pub open spec fn trimmed(s: Seq<char>) -> Seq<char> {
    let start = leading_white_space(s) as int;
    let rest = s.skip(start);
    rest.take(rest.len() - trailing_white_space(rest))
}

/// `s` without leading and trailing whitespace.
pub fn trim(s: &str) -> (res: String)
    ensures
        res@ == trimmed(s@),
{
    let chars = chars_of(s);
    let mut start: usize = 0;
    proof {
        assert(s@.skip(0) =~= s@);
    }
    while start < chars.len() && is_whitespace(chars[start])
        invariant
            chars@ == s@,
            start <= chars.len(),
            leading_white_space(s@) == start + leading_white_space(s@.skip(start as int)),
        decreases chars.len() - start,
    {
        proof {
            assert(s@.skip(start as int).drop_first() =~= s@.skip(start + 1));
        }
        start = start + 1;
    }
    let ghost rest = s@.skip(start as int);
    proof {
        assert(leading_white_space(rest) == 0) by {
            if rest.len() > 0 {
                assert(rest[0] == chars@[start as int]);
            }
        }
    }
    let mut end: usize = chars.len();
    proof {
        assert(rest.take(end - start) =~= rest);
    }
    while end > start && is_whitespace(chars[end - 1])
        invariant
            chars@ == s@,
            start <= end <= chars.len(),
            rest == s@.skip(start as int),
            trailing_white_space(rest) == (chars.len() - end) + trailing_white_space(
                rest.take(end - start),
            ),
        decreases end - start,
    {
        proof {
            let t = rest.take(end - start);
            assert(t.last() == chars@[end - 1]);
            assert(t.drop_last() =~= rest.take(end - 1 - start));
        }
        end = end - 1;
    }
    proof {
        let t = rest.take(end - start);
        assert(trailing_white_space(t) == 0) by {
            if t.len() > 0 {
                assert(t.last() == chars@[end - 1]);
            }
        }
    }
    let mut out: Vec<char> = Vec::new();
    let mut k: usize = start;
    while k < end
        invariant
            chars@ == s@,
            start <= k <= end <= chars.len(),
            out@ == s@.subrange(start as int, k as int),
        decreases end - k,
    {
        out.push(chars[k]);
        proof {
            assert(s@.subrange(start as int, k + 1) == s@.subrange(start as int, k as int).push(
                s@[k as int],
            ));
        }
        k = k + 1;
    }
    proof {
        assert(out@ =~= rest.take(end - start));
        assert(rest.len() - trailing_white_space(rest) == end - start);
    }
    string_from_chars(&out)
}

/// `s` is in the order of `str`: no element is greater than a later one.
pub open spec fn is_sorted_strings(s: Seq<Seq<char>>) -> bool {
    forall|i: int, j: int| 0 <= i < j < s.len() ==> !str_lt(#[trigger] s[j], #[trigger] s[i])
}

proof fn lemma_bytes_lt_irreflexive(a: Seq<u8>)
    ensures
        !bytes_lt(a, a),
    decreases a.len(),
{
    if a.len() > 0 {
        lemma_bytes_lt_irreflexive(a.drop_first());
    }
}

proof fn lemma_bytes_lt_transitive(a: Seq<u8>, b: Seq<u8>, c: Seq<u8>)
    requires
        bytes_lt(a, b),
        bytes_lt(b, c),
    ensures
        bytes_lt(a, c),
    decreases a.len(),
{
    if a.len() > 0 && b.len() > 0 && c.len() > 0 && a[0] == b[0] && b[0] == c[0] {
        lemma_bytes_lt_transitive(a.drop_first(), b.drop_first(), c.drop_first());
    }
}

proof fn lemma_bytes_lt_total(a: Seq<u8>, b: Seq<u8>)
    ensures
        a == b || bytes_lt(a, b) || bytes_lt(b, a),
    decreases a.len(),
{
    if a.len() > 0 && b.len() > 0 && a[0] == b[0] {
        lemma_bytes_lt_total(a.drop_first(), b.drop_first());
        if a.drop_first() == b.drop_first() {
            assert(a =~= seq![a[0]] + a.drop_first());
            assert(b =~= seq![b[0]] + b.drop_first());
        }
    } else if a.len() == 0 && b.len() == 0 {
        assert(a =~= b);
    }
}

/// The order of `str` is a strict total order.
pub proof fn lemma_str_lt_strict_total_order(a: Seq<char>, b: Seq<char>, c: Seq<char>)
    ensures
        !str_lt(a, a),
        str_lt(a, b) && str_lt(b, c) ==> str_lt(a, c),
        a == b || str_lt(a, b) || str_lt(b, a),
{
    lemma_bytes_lt_irreflexive(encode_utf8(a));
    if str_lt(a, b) && str_lt(b, c) {
        lemma_bytes_lt_transitive(encode_utf8(a), encode_utf8(b), encode_utf8(c));
    }
    lemma_bytes_lt_total(encode_utf8(a), encode_utf8(b));
    if encode_utf8(a) == encode_utf8(b) {
        vstd::utf8::encode_utf8_decode_utf8(a);
        vstd::utf8::encode_utf8_decode_utf8(b);
    }
}

proof fn lemma_insert_position_splits(s: Seq<Seq<char>>, x: Seq<char>)
    requires
        is_sorted_strings(s),
    ensures
        0 <= insert_position(s, x) <= s.len(),
        forall|k: int| 0 <= k < insert_position(s, x) ==> !str_lt(x, #[trigger] s[k]),
        forall|k: int| insert_position(s, x) <= k < s.len() ==> str_lt(x, #[trigger] s[k]),
    decreases s.len(),
{
    if s.len() > 0 {
        let p = s.drop_last();
        assert(is_sorted_strings(p)) by {
            assert forall|i: int, j: int| 0 <= i < j < p.len() implies !str_lt(p[j], p[i]) by {
                assert(p[i] == s[i] && p[j] == s[j]);
            }
        }
        lemma_insert_position_splits(p, x);
        let last = s.last();
        if !str_lt(x, last) {
            assert forall|k: int| 0 <= k < s.len() implies !str_lt(x, #[trigger] s[k]) by {
                if k < s.len() - 1 {
                    assert(!str_lt(last, s[k]));
                    lemma_str_lt_strict_total_order(x, s[k], last);
                    lemma_str_lt_strict_total_order(s[k], last, x);
                    lemma_str_lt_strict_total_order(last, s[k], x);
                }
            }
        } else {
            assert forall|k: int| 0 <= k < insert_position(s, x) implies !str_lt(x, #[trigger] s[k]) by {
                assert(s[k] == p[k]);
            }
            assert forall|k: int| insert_position(s, x) <= k < s.len() implies str_lt(x, #[trigger] s[k]) by {
                if k < s.len() - 1 {
                    assert(s[k] == p[k]);
                }
            }
        }
    }
}

proof fn lemma_sorted_strings_sorted(s: Seq<Seq<char>>)
    ensures
        is_sorted_strings(sorted_strings(s)),
        sorted_strings(s).to_multiset() == s.to_multiset(),
        sorted_strings(s).len() == s.len(),
    decreases s.len(),
{
    broadcast use vstd::seq_lib::group_to_multiset_ensures;
    if s.len() > 0 {
        let rest = s.drop_last();
        lemma_sorted_strings_sorted(rest);
        let p = sorted_strings(rest);
        let x = s.last();
        lemma_insert_position_splits(p, x);
        let pos = insert_position(p, x);
        let r = p.insert(pos, x);
        assert(r.to_multiset() == p.to_multiset().insert(x));
        assert(s == rest.push(x));
        assert forall|i: int, j: int| 0 <= i < j < r.len() implies !str_lt(#[trigger] r[j], #[trigger] r[i]) by {
            lemma_str_lt_strict_total_order(r[i], r[j], r[i]);
            if j < pos {
                assert(r[i] == p[i] && r[j] == p[j]);
            } else if j == pos {
                assert(r[j] == x);
                assert(r[i] == p[i]);
            } else if i < pos {
                assert(r[i] == p[i] && r[j] == p[j - 1]);
            } else if i == pos {
                assert(r[i] == x && r[j] == p[j - 1]);
                lemma_str_lt_strict_total_order(p[j - 1], x, p[j - 1]);
            } else {
                assert(r[i] == p[i - 1] && r[j] == p[j - 1]);
            }
        }
    }
}

proof fn lemma_sorted_unique(a: Seq<Seq<char>>, b: Seq<Seq<char>>)
    requires
        is_sorted_strings(a),
        is_sorted_strings(b),
        a.to_multiset() == b.to_multiset(),
    ensures
        a == b,
    decreases a.len(),
{
    broadcast use vstd::seq_lib::group_to_multiset_ensures;
    assert(a.len() == a.to_multiset().len());
    assert(b.len() == b.to_multiset().len());
    if a.len() == 0 {
        assert(a =~= b);
    } else {
        let la = a.last();
        let lb = b.last();
        assert(b.to_multiset().count(lb) > 0) by {
            assert(b.contains(lb)) by {
                assert(b[b.len() - 1] == lb);
            }
        }
        assert(a.contains(lb));
        let ka = choose|k: int| 0 <= k < a.len() && a[k] == lb;
        assert(a.to_multiset().count(la) > 0) by {
            assert(a[a.len() - 1] == la);
        }
        assert(b.contains(la));
        let kb = choose|k: int| 0 <= k < b.len() && b[k] == la;
        if ka < a.len() - 1 {
            assert(!str_lt(a[a.len() - 1], a[ka]));
        }
        if kb < b.len() - 1 {
            assert(!str_lt(b[b.len() - 1], b[kb]));
        }
        lemma_str_lt_strict_total_order(la, lb, la);
        assert(la == lb);
        let ra = a.drop_last();
        let rb = b.drop_last();
        assert(a.remove(a.len() - 1) =~= ra);
        assert(b.remove(b.len() - 1) =~= rb);
        assert(ra.to_multiset() == a.to_multiset().remove(la));
        assert(rb.to_multiset() == b.to_multiset().remove(lb));
        assert(is_sorted_strings(ra)) by {
            assert forall|i: int, j: int| 0 <= i < j < ra.len() implies !str_lt(#[trigger] ra[j], #[trigger] ra[i]) by {
                assert(ra[i] == a[i] && ra[j] == a[j]);
            }
        }
        assert(is_sorted_strings(rb)) by {
            assert forall|i: int, j: int| 0 <= i < j < rb.len() implies !str_lt(#[trigger] rb[j], #[trigger] rb[i]) by {
                assert(rb[i] == b[i] && rb[j] == b[j]);
            }
        }
        lemma_sorted_unique(ra, rb);
        assert(a =~= ra.push(la));
        assert(b =~= rb.push(lb));
    }
}

/// Sorting puts the strings in the order of `str` and keeps each of them.
pub proof fn lemma_sorted_strings_is_sorted_permutation(s: Seq<Seq<char>>)
    ensures
        is_sorted_strings(sorted_strings(s)),
        sorted_strings(s).to_multiset() == s.to_multiset(),
{
    lemma_sorted_strings_sorted(s);
}

/// Sorting does not depend on the order of its input: any two orderings of
/// the same strings sort to the same list.
pub proof fn lemma_sorted_strings_order_independent(s: Seq<Seq<char>>, t: Seq<Seq<char>>)
    requires
        s.to_multiset() == t.to_multiset(),
    ensures
        sorted_strings(s) == sorted_strings(t),
{
    lemma_sorted_strings_sorted(s);
    lemma_sorted_strings_sorted(t);
    lemma_sorted_unique(sorted_strings(s), sorted_strings(t));
}

/// Strings are ordered by their UTF-8 bytes: where the bytes first differ,
/// the string with the smaller byte comes first.
pub proof fn lemma_str_lt_first_difference(a: Seq<char>, b: Seq<char>, i: int)
    requires
        0 <= i < encode_utf8(a).len(),
        i < encode_utf8(b).len(),
        encode_utf8(a).take(i) == encode_utf8(b).take(i),
        encode_utf8(a)[i] != encode_utf8(b)[i],
    ensures
        str_lt(a, b) == (encode_utf8(a)[i] < encode_utf8(b)[i]),
{
    let x = encode_utf8(a);
    let y = encode_utf8(b);
    lemma_bytes_lt_skip(x, y, i);
    assert(x.skip(i)[0] == x[i]);
    assert(y.skip(i)[0] == y[i]);
}

/// A string whose bytes begin another's comes before it, unless the two are
/// equal, and never after it.
pub proof fn lemma_str_lt_prefix(a: Seq<char>, b: Seq<char>)
    requires
        encode_utf8(a).len() <= encode_utf8(b).len(),
        encode_utf8(b).take(encode_utf8(a).len() as int) == encode_utf8(a),
    ensures
        str_lt(a, b) == (encode_utf8(a).len() < encode_utf8(b).len()),
        !str_lt(b, a),
{
    let x = encode_utf8(a);
    let y = encode_utf8(b);
    let n = x.len() as int;
    assert(x.take(n) =~= x);
    lemma_bytes_lt_skip(x, y, n);
    lemma_bytes_lt_skip(y, x, n);
    assert(x.skip(n).len() == 0);
}

} // verus!
