use vstd::prelude::*;

verus! {

/// `String::push` appends one character at the end of the string.
pub assume_specification[ String::push ](s: &mut String, ch: char)
    ensures
        final(s)@ == old(s)@.push(ch),
;

/// The characters of `s`, in order.
pub fn chars_of(s: &str) -> (v: Vec<char>)
    ensures
        v@ == s@,
{
    let mut v: Vec<char> = Vec::new();
    for c in it: s.chars()
        invariant
            v@ == it.seq().take(it.index() as int),
            it.seq() == s@,
    {
        v.push(c);
    }
    v
}

/// The decimal digit character for `d` (0..=9).
pub open spec fn digit_char(d: nat) -> char {
    ((d + 48) as u32) as char
}

/// The shortest decimal rendering of `n`, as produced by Rust's `Display` for integers.
pub open spec fn decimal(n: nat) -> Seq<char>
    decreases n,
{
    if n < 10 {
        seq![digit_char(n)]
    } else {
        decimal(n / 10).push(digit_char(n % 10))
    }
}

/// Appends the decimal rendering of `n` to `s`.
pub fn push_decimal(s: &mut String, n: u64)
    ensures
        final(s)@ == old(s)@ + decimal(n as nat),
    decreases n,
{
    if n >= 10 {
        push_decimal(s, n / 10);
    }
    let d: u32 = (n % 10) as u32;
    let c: char = char_from_digit(d);
    s.push(c);
}

fn char_from_digit(d: u32) -> (c: char)
    requires
        d < 10,
    ensures
        c == digit_char(d as nat),
{
    if d == 0 { '0' } else if d == 1 { '1' } else if d == 2 { '2' } else if d == 3 { '3' }
    else if d == 4 { '4' } else if d == 5 { '5' } else if d == 6 { '6' } else if d == 7 { '7' }
    else if d == 8 { '8' } else { '9' }
}

/// An owned copy of `s`.
pub fn owned(s: &str) -> (r: String)
    ensures
        r@ == s@,
{
    broadcast use vstd::string::group_string_axioms;
    s.to_string()
}

/// Appends the characters of `t` to `s`.
pub fn push_text(s: &mut String, t: &str)
    ensures
        final(s)@ == old(s)@ + t@,
{
    let cs = chars_of(t);
    let ghost start = s@;
    let mut i: usize = 0;
    while i < cs.len()
        invariant
            i <= cs@.len(),
            cs@ == t@,
            s@ == start + cs@.take(i as int),
        decreases cs@.len() - i,
    {
        s.push(cs[i]);
        i = i + 1;
        assert(s@ =~= start + cs@.take(i as int));
    }
    assert(cs@.take(i as int) =~= cs@);
}

/// Whether two character vectors hold the same characters.
pub fn chars_eq(a: &Vec<char>, b: &Vec<char>) -> (r: bool)
    ensures
        r == (a@ == b@),
{
    if a.len() != b.len() {
        return false;
    }
    let mut i: usize = 0;
    while i < a.len()
        invariant
            i <= a@.len(),
            a@.len() == b@.len(),
            forall|k: int| 0 <= k < i ==> a@[k] == b@[k],
        decreases a@.len() - i,
    {
        if a[i] != b[i] {
            return false;
        }
        i = i + 1;
    }
    assert(a@ =~= b@);
    true
}

/// Whether two strings hold the same characters.
pub fn text_eq(a: &str, b: &str) -> (r: bool)
    ensures
        r == (a@ == b@),
{
    chars_eq(&chars_of(a), &chars_of(b))
}

/// `needle` occurs in `hay` at position `i`.
pub open spec fn occurs_at(hay: Seq<char>, needle: Seq<char>, i: int) -> bool {
    0 <= i && i + needle.len() <= hay.len() && hay.subrange(i, i + needle.len()) == needle
}

/// `needle` occurs somewhere in `hay` (as `str::contains` with a string pattern).
pub open spec fn contains_text(hay: Seq<char>, needle: Seq<char>) -> bool {
    exists|i: int| occurs_at(hay, needle, i)
}

fn occurs_at_exec(hay: &Vec<char>, needle: &Vec<char>, i: usize) -> (r: bool)
    requires
        i + needle@.len() <= hay@.len(),
    ensures
        r == occurs_at(hay@, needle@, i as int),
{
    let mut k: usize = 0;
    assert(hay@.len() == hay.len());
    while k < needle.len()
        invariant
            k <= needle@.len(),
            i + needle@.len() <= hay@.len(),
            hay@.len() <= usize::MAX,
            forall|j: int| 0 <= j < k ==> hay@[i + j] == needle@[j],
        decreases needle@.len() - k,
    {
        if hay[i + k] != needle[k] {
            assert(hay@.subrange(i as int, i + needle@.len())[k as int] != needle@[k as int]);
            return false;
        }
        k = k + 1;
    }
    assert(hay@.subrange(i as int, i + needle@.len()) =~= needle@);
    true
}

/// Whether `needle` occurs in `hay`.
pub fn contains_chars(hay: &Vec<char>, needle: &Vec<char>) -> (r: bool)
    ensures
        r == contains_text(hay@, needle@),
{
    if needle.len() > hay.len() {
        assert forall|i: int| !occurs_at(hay@, needle@, i) by {}
        return false;
    }
    let last: usize = hay.len() - needle.len();
    let mut i: usize = 0;
    while i <= last
        invariant
            last + needle@.len() == hay@.len(),
            forall|j: int| 0 <= j < i ==> !occurs_at(hay@, needle@, j),
        decreases last + 1 - i,
    {
        if occurs_at_exec(hay, needle, i) {
            return true;
        }
        if i == last {
            assert forall|j: int| !occurs_at(hay@, needle@, j) by {}
            return false;
        }
        i = i + 1;
    }
    false
}

/// The words that can never name a variable.
pub open spec fn is_keyword_text(w: Seq<char>) -> bool {
    ||| w == "fn"@
    ||| w == "let"@
    ||| w == "mut"@
    ||| w == "pub"@
    ||| w == "struct"@
    ||| w == "enum"@
    ||| w == "impl"@
    ||| w == "for"@
    ||| w == "while"@
    ||| w == "loop"@
    ||| w == "if"@
    ||| w == "else"@
    ||| w == "match"@
    ||| w == "return"@
    ||| w == "use"@
    ||| w == "mod"@
    ||| w == "crate"@
    ||| w == "self"@
    ||| w == "Self"@
    ||| w == "super"@
    ||| w == "where"@
    ||| w == "as"@
    ||| w == "true"@
    ||| w == "false"@
}

fn is_keyword_chars(w: &Vec<char>) -> (r: bool)
    ensures
        r == is_keyword_text(w@),
{
    chars_eq(w, &chars_of("fn")) || chars_eq(w, &chars_of("let")) || chars_eq(w, &chars_of("mut"))
        || chars_eq(w, &chars_of("pub")) || chars_eq(w, &chars_of("struct")) || chars_eq(
        w,
        &chars_of("enum"),
    ) || chars_eq(w, &chars_of("impl")) || chars_eq(w, &chars_of("for")) || chars_eq(
        w,
        &chars_of("while"),
    ) || chars_eq(w, &chars_of("loop")) || chars_eq(w, &chars_of("if")) || chars_eq(
        w,
        &chars_of("else"),
    ) || chars_eq(w, &chars_of("match")) || chars_eq(w, &chars_of("return")) || chars_eq(
        w,
        &chars_of("use"),
    ) || chars_eq(w, &chars_of("mod")) || chars_eq(w, &chars_of("crate")) || chars_eq(
        w,
        &chars_of("self"),
    ) || chars_eq(w, &chars_of("Self")) || chars_eq(w, &chars_of("super")) || chars_eq(
        w,
        &chars_of("where"),
    ) || chars_eq(w, &chars_of("as")) || chars_eq(w, &chars_of("true")) || chars_eq(
        w,
        &chars_of("false"),
    )
}

/// Whether `word` is one of the language keywords that never name a variable.
pub fn is_keyword(word: &str) -> (r: bool)
    ensures
        r == is_keyword_text(word@),
{
    is_keyword_chars(&chars_of(word))
}

/// The index of the first `'\n'` in `s`, or `s.len()` where there is none.
pub open spec fn newline_index(s: Seq<char>) -> nat
    decreases s.len(),
{
    if s.len() == 0 {
        0
    } else if s[0] == '\n' {
        0
    } else {
        1 + newline_index(s.drop_first())
    }
}

/// `l` without one trailing `'\r'`.
pub open spec fn strip_cr(l: Seq<char>) -> Seq<char> {
    if l.len() > 0 && l.last() == '\r' {
        l.drop_last()
    } else {
        l
    }
}

/// The lines of `s`, as `str::lines` gives them: split at each `'\n'`, a `'\r'` right before
/// a `'\n'` dropped, and no empty line after a final `'\n'`.
pub open spec fn text_lines(s: Seq<char>) -> Seq<Seq<char>>
    decreases s.len(),
{
    if s.len() == 0 {
        seq![]
    } else {
        let k = newline_index(s);
        if k >= s.len() {
            seq![s]
        } else {
            seq![strip_cr(s.take(k as int))] + text_lines(s.skip(k + 1 as int))
        }
    }
}

proof fn lemma_newline_index_prefix(a: Seq<char>, b: Seq<char>)
    requires
        !a.contains('\n'),
    ensures
        newline_index(a + b) == a.len() + newline_index(b),
    decreases a.len(),
{
    if a.len() == 0 {
        assert(a + b =~= b);
    } else {
        assert(a[0] != '\n') by {
            assert(a.contains(a[0]));
        }
        assert((a + b).drop_first() =~= a.drop_first() + b);
        assert(!a.drop_first().contains('\n')) by {
            if a.drop_first().contains('\n') {
                let j = choose|j: int| 0 <= j < a.drop_first().len() && a.drop_first()[j] == '\n';
                assert(a[j + 1] == '\n');
            }
        }
        lemma_newline_index_prefix(a.drop_first(), b);
    }
}

fn strip_cr_exec(l: Vec<char>) -> (r: Vec<char>)
    ensures
        r@ == strip_cr(l@),
{
    let mut l = l;
    if l.len() > 0 && l[l.len() - 1] == '\r' {
        l.pop();
    }
    l
}

/// The lines of `s` (see `text_lines`).
pub fn split_lines(s: &str) -> (lines: Vec<Vec<char>>)
    ensures
        lines@.map_values(|l: Vec<char>| l@) == text_lines(s@),
{
    let cs = chars_of(s);
    let ghost t = s@;
    let mut lines: Vec<Vec<char>> = Vec::new();
    let mut cur: Vec<char> = Vec::new();
    let mut i: usize = 0;
    assert(cur@ + t.skip(0) =~= t);
    assert(lines@.map_values(|l: Vec<char>| l@) + text_lines(t) =~= text_lines(t));
    while i < cs.len()
        invariant
            cs@ == t,
            i <= t.len(),
            !cur@.contains('\n'),
            text_lines(t) == lines@.map_values(|l: Vec<char>| l@) + text_lines(cur@ + t.skip(i as int)),
        decreases t.len() - i,
    {
        let c = cs[i];
        let ghost rest = t.skip(i + 1);
        assert(t.skip(i as int) =~= seq![c] + rest);
        if c == '\n' {
            proof {
                lemma_newline_index_prefix(cur@, seq![c] + rest);
                let u = cur@ + (seq![c] + rest);
                assert(u.take(cur@.len() as int) =~= cur@);
                assert(u.skip(cur@.len() + 1 as int) =~= rest);
            }
            let line = strip_cr_exec(cur);
            let ghost pre = lines@;
            lines.push(line);
            assert(lines@.map_values(|l: Vec<char>| l@) =~= pre.map_values(|l: Vec<char>| l@) + seq![
                strip_cr(cur@),
            ]);
            cur = Vec::new();
            assert(cur@ + rest =~= rest);
        } else {
            let ghost pre = cur@;
            cur.push(c);
            assert(cur@ + rest =~= pre + t.skip(i as int));
            assert(!cur@.contains('\n')) by {
                if cur@.contains('\n') {
                    let j = choose|j: int| 0 <= j < cur@.len() && cur@[j] == '\n';
                    if j < pre.len() {
                        assert(pre[j] == '\n');
                    }
                }
            }
        }
        i = i + 1;
    }
    assert(t.skip(i as int) =~= Seq::<char>::empty());
    assert(cur@ + t.skip(i as int) =~= cur@);
    if cur.len() > 0 {
        proof {
            lemma_newline_index_prefix(cur@, Seq::<char>::empty());
            assert(cur@ + Seq::<char>::empty() =~= cur@);
        }
        let ghost pre = lines@;
        lines.push(cur);
        assert(lines@.map_values(|l: Vec<char>| l@) =~= pre.map_values(|l: Vec<char>| l@) + text_lines(
            lines@.last()@,
        ));
    } else {
        assert(lines@.map_values(|l: Vec<char>| l@) + text_lines(cur@) =~= lines@.map_values(
            |l: Vec<char>| l@,
        ));
    }
    lines
}

/// `c` has the Unicode `White_Space` property (as `char::is_whitespace`).
pub open spec fn is_white_space(c: char) -> bool {
    let v = c as u32;
    ||| 9 <= v <= 13
    ||| v == 32
    ||| v == 0x85
    ||| v == 0xA0
    ||| v == 0x1680
    ||| 0x2000 <= v <= 0x200A
    ||| v == 0x2028
    ||| v == 0x2029
    ||| v == 0x202F
    ||| v == 0x205F
    ||| v == 0x3000
}

fn is_white_space_exec(c: char) -> (r: bool)
    ensures
        r == is_white_space(c),
{
    let v = c as u32;
    (9 <= v && v <= 13) || v == 32 || v == 0x85 || v == 0xA0 || v == 0x1680 || (0x2000 <= v && v
        <= 0x200A) || v == 0x2028 || v == 0x2029 || v == 0x202F || v == 0x205F || v == 0x3000
}

/// `s` without its leading white space.
pub open spec fn trim_start(s: Seq<char>) -> Seq<char>
    decreases s.len(),
{
    if s.len() > 0 && is_white_space(s[0]) {
        trim_start(s.drop_first())
    } else {
        s
    }
}

/// `s` without its trailing white space.
pub open spec fn trim_end(s: Seq<char>) -> Seq<char>
    decreases s.len(),
{
    if s.len() > 0 && is_white_space(s.last()) {
        trim_end(s.drop_last())
    } else {
        s
    }
}

/// `s` without leading and trailing white space (as `str::trim`).
pub open spec fn trim(s: Seq<char>) -> Seq<char> {
    trim_end(trim_start(s))
}

/// The characters of `v` from `lo` up to `hi`.
pub fn slice_chars(v: &Vec<char>, lo: usize, hi: usize) -> (r: Vec<char>)
    requires
        lo <= hi <= v@.len(),
    ensures
        r@ == v@.subrange(lo as int, hi as int),
{
    let mut r: Vec<char> = Vec::new();
    let mut i: usize = lo;
    while i < hi
        invariant
            lo <= i <= hi,
            hi <= v@.len(),
            r@ == v@.subrange(lo as int, i as int),
        decreases hi - i,
    {
        r.push(v[i]);
        i = i + 1;
        assert(r@ =~= v@.subrange(lo as int, i as int));
    }
    r
}

/// `v` without leading and trailing white space.
pub fn trim_chars(v: &Vec<char>) -> (r: Vec<char>)
    ensures
        r@ == trim(v@),
{
    let ghost s = v@;
    let mut lo: usize = 0;
    assert(s.skip(0) =~= s);
    while lo < v.len() && is_white_space_exec(v[lo])
        invariant
            lo <= s.len(),
            s == v@,
            trim_start(s) == trim_start(s.skip(lo as int)),
        decreases s.len() - lo,
    {
        assert(s.skip(lo as int).drop_first() =~= s.skip(lo + 1));
        lo = lo + 1;
    }
    let ghost u = s.skip(lo as int);
    let mut hi: usize = v.len();
    assert(u.take(u.len() as int) =~= u);
    while hi > lo && is_white_space_exec(v[hi - 1])
        invariant
            lo <= hi <= s.len(),
            s == v@,
            u == s.skip(lo as int),
            trim_start(s) == u,
            trim_end(u) == trim_end(u.take(hi - lo)),
        decreases hi,
    {
        assert(u.take(hi - lo).drop_last() =~= u.take(hi - lo - 1));
        hi = hi - 1;
    }
    let r = slice_chars(v, lo, hi);
    assert(r@ =~= u.take(hi - lo));
    r
}

/// `p` is a prefix of `t`.
pub open spec fn has_prefix(t: Seq<char>, p: Seq<char>) -> bool {
    p.len() <= t.len() && t.take(p.len() as int) == p
}

/// Whether `p` is a prefix of `t`.
pub fn has_prefix_chars(t: &Vec<char>, p: &Vec<char>) -> (r: bool)
    ensures
        r == has_prefix(t@, p@),
{
    if p.len() > t.len() {
        return false;
    }
    let head = slice_chars(t, 0, p.len());
    assert(head@ =~= t@.take(p@.len() as int));
    chars_eq(&head, p)
}

/// `c` is an ASCII decimal digit.
pub open spec fn is_digit(c: char) -> bool {
    48 <= (c as u32) <= 57
}

/// The value of a run of decimal digits.
pub open spec fn digits_value(d: Seq<char>) -> nat
    decreases d.len(),
{
    if d.len() == 0 {
        0
    } else {
        digits_value(d.drop_last()) * 10 + ((d.last() as u32) - 48) as nat
    }
}

/// The digits that `usize::from_str` reads from `t`: an optional leading `'+'` dropped.
pub open spec fn unsigned_digits(t: Seq<char>) -> Seq<char> {
    if t.len() > 0 && t[0] == '+' {
        t.drop_first()
    } else {
        t
    }
}

/// The value `usize::from_str` gives for `t`: `None` unless `t` is an optional `'+'`
/// followed by at least one decimal digit and nothing else, with a value that fits.
pub open spec fn parse_usize(t: Seq<char>) -> Option<usize> {
    let d = unsigned_digits(t);
    if d.len() > 0 && (forall|i: int| 0 <= i < d.len() ==> is_digit(#[trigger] d[i])) && digits_value(d)
        <= usize::MAX {
        Some(digits_value(d) as usize)
    } else {
        None
    }
}

proof fn lemma_digits_value_prefix_mono(d: Seq<char>, i: int)
    requires
        0 <= i <= d.len(),
    ensures
        digits_value(d.take(i)) <= digits_value(d),
    decreases d.len() - i,
{
    if i < d.len() {
        lemma_digits_value_prefix_mono(d, i + 1);
        assert(d.take(i + 1).drop_last() =~= d.take(i));
    } else {
        assert(d.take(i) =~= d);
    }
}

/// The number that `t` spells (see `parse_usize`).
pub fn parse_usize_chars(t: &Vec<char>) -> (r: Option<usize>)
    ensures
        r == parse_usize(t@),
{
    let mut start: usize = 0;
    if t.len() > 0 && t[0] == '+' {
        start = 1;
    }
    let ghost d = unsigned_digits(t@);
    assert(d =~= t@.skip(start as int));
    if start >= t.len() {
        return None;
    }
    let mut acc: usize = 0;
    let mut i: usize = start;
    while i < t.len()
        invariant
            start <= i <= t@.len(),
            d == t@.skip(start as int),
            d == unsigned_digits(t@),
            d.len() > 0,
            forall|k: int| 0 <= k < i - start ==> is_digit(#[trigger] d[k]),
            acc as nat == digits_value(d.take(i - start)),
        decreases t@.len() - i,
    {
        let c = t[i];
        let v = c as u32;
        assert(d[i - start] == c);
        if v < 48 || v > 57 {
            assert(!is_digit(d[(i - start) as int]));
            return None;
        }
        let ghost j = (i - start) as int;
        assert(d.take(j + 1).drop_last() =~= d.take(j));
        assert(d.take(j + 1).last() == c);
        assert(digits_value(d.take(j + 1)) == digits_value(d.take(j)) * 10 + (v - 48) as nat);
        match acc.checked_mul(10) {
            Some(m) => match m.checked_add((v - 48) as usize) {
                Some(n) => {
                    acc = n;
                },
                None => {
                    proof {
                        lemma_digits_value_prefix_mono(d, j + 1);
                    }
                    return None;
                },
            },
            None => {
                proof {
                    lemma_digits_value_prefix_mono(d, j + 1);
                }
                return None;
            },
        }
        i = i + 1;
    }
    assert(d.take(d.len() as int) =~= d);
    Some(acc)
}

/// The decimal rendering of `n` is a non-empty run of digits whose value is `n`.
pub proof fn lemma_decimal_digits(n: nat)
    ensures
        decimal(n).len() > 0,
        forall|i: int| 0 <= i < decimal(n).len() ==> is_digit(#[trigger] decimal(n)[i]),
        digits_value(decimal(n)) == n,
    decreases n,
{
    if n < 10 {
        let c = digit_char(n);
        assert((c as u32) == n + 48);
        assert(decimal(n) =~= seq![c]);
        assert(seq![c].drop_last() =~= Seq::<char>::empty());
        assert(digits_value(Seq::<char>::empty()) == 0);
        assert(digits_value(decimal(n)) == digits_value(Seq::<char>::empty()) * 10 + ((c as u32) - 48) as nat);
    } else {
        lemma_decimal_digits(n / 10);
        let c = digit_char(n % 10);
        assert((c as u32) == n % 10 + 48);
        assert(decimal(n).last() == c);
        assert(n == (n / 10) * 10 + n % 10);
        let x = decimal(n);
        assert(x.len() > 0);
        assert(digits_value(x) == digits_value(x.drop_last()) * 10 + ((x.last() as u32) - 48) as nat);
        assert(decimal(n).drop_last() =~= decimal(n / 10));
        assert(forall|i: int| 0 <= i < decimal(n).len() ==> is_digit(#[trigger] decimal(n)[i])) by {
            assert forall|i: int| 0 <= i < decimal(n).len() implies is_digit(#[trigger] decimal(n)[i]) by {
                if i < decimal(n / 10).len() {
                    assert(decimal(n)[i] == decimal(n / 10)[i]);
                }
            }
        }
    }
}

/// Reading back the decimal rendering of a `usize` gives the same number.
pub proof fn lemma_parse_decimal(n: usize)
    ensures
        parse_usize(decimal(n as nat)) == Some(n),
{
    lemma_decimal_digits(n as nat);
    let d = decimal(n as nat);
    assert(is_digit(d[0]));
    assert(unsigned_digits(d) == d);
}

/// A `String` holding the characters of `v`.
pub fn string_of(v: &Vec<char>) -> (s: String)
    ensures
        s@ == v@,
{
    let mut s = String::new();
    let mut i: usize = 0;
    while i < v.len()
        invariant
            i <= v@.len(),
            s@ == v@.take(i as int),
        decreases v@.len() - i,
    {
        s.push(v[i]);
        i = i + 1;
        assert(s@ =~= v@.take(i as int));
    }
    assert(v@.take(i as int) =~= v@);
    s
}

/// The number of bytes of the UTF-8 encoding of `s` (what `str::len` gives).
pub open spec fn utf8_len(s: Seq<char>) -> nat {
    vstd::utf8::encode_utf8(s).len()
}

proof fn lemma_encode_utf8_concat(a: Seq<char>, b: Seq<char>)
    ensures
        vstd::utf8::encode_utf8(a + b) == vstd::utf8::encode_utf8(a) + vstd::utf8::encode_utf8(b),
    decreases a.len(),
{
    if a.len() == 0 {
        assert(a + b =~= b);
        assert(vstd::utf8::encode_utf8(a) =~= Seq::<u8>::empty());
        assert(Seq::<u8>::empty() + vstd::utf8::encode_utf8(b) =~= vstd::utf8::encode_utf8(b));
    } else {
        lemma_encode_utf8_concat(a.drop_first(), b);
        assert((a + b).drop_first() =~= a.drop_first() + b);
        assert((a + b)[0] == a[0]);
        assert(vstd::utf8::encode_utf8(a + b) =~= vstd::utf8::encode_utf8(a) + vstd::utf8::encode_utf8(b));
    }
}

/// The UTF-8 length of a prefix plus that of the rest is the UTF-8 length of the whole.
proof fn lemma_utf8_len_split(s: Seq<char>, i: int)
    requires
        0 <= i <= s.len(),
    ensures
        utf8_len(s) == utf8_len(s.take(i)) + utf8_len(s.skip(i)),
        i < s.len() ==> utf8_len(s.take(i + 1)) == utf8_len(s.take(i)) + vstd::utf8::encode_scalar(
            s[i] as u32,
        ).len(),
{
    assert(s.take(i) + s.skip(i) =~= s);
    lemma_encode_utf8_concat(s.take(i), s.skip(i));
    if i < s.len() {
        assert(s.take(i + 1) =~= s.take(i) + seq![s[i]]);
        lemma_encode_utf8_concat(s.take(i), seq![s[i]]);
        assert(seq![s[i]].drop_first() =~= Seq::<char>::empty());
        assert(vstd::utf8::encode_utf8(seq![s[i]]) =~= vstd::utf8::encode_scalar(s[i] as u32)
            + vstd::utf8::encode_utf8(Seq::<char>::empty()));
    }
}

/// The number of bytes of the UTF-8 encoding of `c` (what `char::len_utf8` gives).
fn utf8_width(c: char) -> (w: usize)
    ensures
        w == vstd::utf8::encode_scalar(c as u32).len(),
        1 <= w <= 4,
{
    proof {
        vstd::utf8::char_is_scalar(c);
    }
    let v = c as u32;
    if v <= 0x7F {
        1
    } else if v <= 0x7FF {
        2
    } else if v <= 0xFFFF {
        3
    } else {
        4
    }
}

/// The name for what `char::is_alphanumeric` returns: whether `c` is alphabetic or numeric
/// in the sense of the Unicode tables of the standard library.
pub uninterp spec fn char_is_alphanumeric(c: char) -> bool;

/// `char::is_alphanumeric`: whether `c` has the Unicode `Alphabetic` property or a numeric
/// general category. Its result is the name `char_is_alphanumeric` of `c`; nothing more about
/// the Unicode tables is stated.
#[verifier::external_body]
fn is_alphanumeric(c: char) -> (b: bool)
    ensures
        b == char_is_alphanumeric(c),
{
    c.is_alphanumeric()
}

/// `c` can be part of an identifier: alphanumeric or `'_'`.
pub open spec fn is_word_char(c: char) -> bool {
    char_is_alphanumeric(c) || c == '_'
}

/// An identifier starts at position `i` of `s`.
pub open spec fn starts_word(s: Seq<char>, i: int) -> bool {
    0 <= i < s.len() && is_word_char(s[i]) && (i == 0 || !is_word_char(s[i - 1]))
}

/// The position right after the identifier characters that begin at `i`.
pub open spec fn word_end(s: Seq<char>, i: int) -> int
    decreases s.len() - i,
{
    if 0 <= i < s.len() && is_word_char(s[i]) {
        word_end(s, i + 1)
    } else {
        i
    }
}

/// The positions below `n` at which an identifier of `s` starts, in order.
pub open spec fn word_starts(s: Seq<char>, n: int) -> Seq<int>
    decreases n,
{
    if n <= 0 {
        seq![]
    } else {
        word_starts(s, n - 1) + if starts_word(s, n - 1) {
            seq![n - 1]
        } else {
            seq![]
        }
    }
}

/// The one-based byte column of position `j` of `s`.
pub open spec fn byte_column(s: Seq<char>, j: int) -> u32 {
    (utf8_len(s.take(j)) + 1) as u32
}

/// The columns of the identifiers that start at `starts`, keywords left out.
pub open spec fn kept_columns(s: Seq<char>, starts: Seq<int>) -> Seq<u32>
    decreases starts.len(),
{
    if starts.len() == 0 {
        seq![]
    } else {
        let j = starts.last();
        kept_columns(s, starts.drop_last()) + if is_keyword_text(s.subrange(j, word_end(s, j))) {
            seq![]
        } else {
            seq![byte_column(s, j)]
        }
    }
}

/// The one-based byte columns at which the identifiers of `s` that are not keywords start,
/// in order.
pub open spec fn identifier_columns_of(s: Seq<char>) -> Seq<u32> {
    kept_columns(s, word_starts(s, s.len() as int))
}

proof fn lemma_word_end(s: Seq<char>, start: int, i: int)
    requires
        0 <= start <= i <= s.len(),
        forall|k: int| start <= k < i ==> is_word_char(#[trigger] s[k]),
        i == s.len() || !is_word_char(s[i]),
    ensures
        word_end(s, start) == i,
    decreases i - start,
{
    if start < i {
        lemma_word_end(s, start + 1, i);
    }
}

/// The one-based byte columns at which the identifiers on `line_text` start, keywords
/// left out, in order.
pub fn identifier_columns(line_text: &str) -> (cols: Vec<u32>)
    requires
        utf8_len(line_text@) <= u32::MAX,
    ensures
        cols@ == identifier_columns_of(line_text@),
        forall|a: int, b: int| 0 <= a < b < cols@.len() ==> #[trigger] cols@[a] < #[trigger] cols@[b],
{
    let cs = chars_of(line_text);
    let ghost t = line_text@;
    let mut cols: Vec<u32> = Vec::new();
    let mut cur: Vec<char> = Vec::new();
    let mut start: usize = 0;
    let mut start_col: u32 = 0;
    let mut offset: usize = 0;
    let mut i: usize = 0;
    assert(t.take(0) =~= Seq::<char>::empty());
    assert(vstd::utf8::encode_utf8(Seq::<char>::empty()) =~= Seq::<u8>::empty());
    while i < cs.len()
        invariant
            cs@ == t,
            i <= t.len(),
            utf8_len(t) <= u32::MAX,
            offset == utf8_len(t.take(i as int)),
            cur@.len() == 0 ==> cols@ == kept_columns(t, word_starts(t, i as int)) && (i == 0
                || !is_word_char(t[i - 1])),
            cur@.len() > 0 ==> {
                &&& start + cur@.len() == i
                &&& cur@ == t.subrange(start as int, i as int)
                &&& starts_word(t, start as int)
                &&& forall|k: int| start <= k < i ==> is_word_char(#[trigger] t[k])
                &&& cols@ == kept_columns(t, word_starts(t, start as int))
                &&& word_starts(t, i as int) == word_starts(t, start as int).push(start as int)
                &&& start_col == byte_column(t, start as int)
            },
        decreases t.len() - i,
    {
        let c = cs[i];
        proof {
            lemma_utf8_len_split(t, i as int);
            lemma_utf8_len_split(t, i + 1);
        }
        let w = utf8_width(c);
        let is_word = is_alphanumeric(c) || c == '_';
        if is_word {
            if cur.len() == 0 {
                start = i;
                start_col = (offset + 1) as u32;
                assert(word_starts(t, i + 1) == word_starts(t, i as int).push(i as int));
            } else {
                assert(!starts_word(t, i as int));
                assert(word_starts(t, i + 1) =~= word_starts(t, i as int));
            }
            let ghost pre = cur@;
            cur.push(c);
            assert(cur@ =~= t.subrange(start as int, i + 1));
        } else {
            assert(!starts_word(t, i as int));
            assert(word_starts(t, i + 1) =~= word_starts(t, i as int));
            if cur.len() > 0 {
                proof {
                    lemma_word_end(t, start as int, i as int);
                    let st = word_starts(t, start as int).push(start as int);
                    assert(st.drop_last() =~= word_starts(t, start as int));
                }
                if !is_keyword_chars(&cur) {
                    cols.push(start_col);
                }
                cur = Vec::new();
            }
        }
        offset = offset + w;
        i = i + 1;
    }
    assert(t.take(i as int) =~= t);
    if cur.len() > 0 {
        proof {
            lemma_word_end(t, start as int, i as int);
            let st = word_starts(t, start as int).push(start as int);
            assert(st.drop_last() =~= word_starts(t, start as int));
        }
        if !is_keyword_chars(&cur) {
            cols.push(start_col);
        }
    }
    proof {
        lemma_identifier_columns_increasing(t);
    }
    cols
}

proof fn lemma_word_starts_members(s: Seq<char>, n: int)
    requires
        0 <= n <= s.len(),
    ensures
        forall|k: int|
            0 <= k < word_starts(s, n).len() ==> starts_word(s, #[trigger] word_starts(s, n)[k])
                && word_starts(s, n)[k] < n,
        forall|j: int| 0 <= j < n && starts_word(s, j) ==> word_starts(s, n).contains(j),
    decreases n,
{
    if n > 0 {
        lemma_word_starts_members(s, n - 1);
        let prev = word_starts(s, n - 1);
        let ws = word_starts(s, n);
        assert forall|k: int| 0 <= k < ws.len() implies starts_word(s, #[trigger] ws[k]) && ws[k] < n by {
            if k < prev.len() {
                assert(ws[k] == prev[k]);
            }
        }
        assert forall|j: int| 0 <= j < n && starts_word(s, j) implies ws.contains(j) by {
            if j < n - 1 {
                let k = choose|k: int| 0 <= k < prev.len() && prev[k] == j;
                assert(ws[k] == j);
            } else {
                assert(ws[ws.len() - 1] == j);
            }
        }
    }
}

proof fn lemma_kept_columns_members(s: Seq<char>, st: Seq<int>)
    ensures
        forall|i: int|
            0 <= i < kept_columns(s, st).len() ==> exists|k: int|
                0 <= k < st.len() && !is_keyword_text(s.subrange(st[k], word_end(s, st[k])))
                    && #[trigger] kept_columns(s, st)[i] == byte_column(s, st[k]),
        forall|k: int|
            0 <= k < st.len() && !is_keyword_text(s.subrange(st[k], word_end(s, st[k])))
                ==> kept_columns(s, st).contains(byte_column(s, #[trigger] st[k])),
    decreases st.len(),
{
    if st.len() > 0 {
        let prev = st.drop_last();
        lemma_kept_columns_members(s, prev);
        let kc = kept_columns(s, st);
        let kp = kept_columns(s, prev);
        assert forall|i: int| 0 <= i < kc.len() implies exists|k: int|
            0 <= k < st.len() && !is_keyword_text(s.subrange(st[k], word_end(s, st[k])))
                && #[trigger] kc[i] == byte_column(s, st[k]) by {
            if i < kp.len() {
                assert(kc[i] == kp[i]);
                let k = choose|k: int|
                    0 <= k < prev.len() && !is_keyword_text(s.subrange(prev[k], word_end(s, prev[k])))
                        && #[trigger] kp[i] == byte_column(s, prev[k]);
                assert(st[k] == prev[k]);
            } else {
                assert(st[st.len() - 1] == st.last());
            }
        }
        assert forall|k: int|
            0 <= k < st.len() && !is_keyword_text(s.subrange(st[k], word_end(s, st[k]))) implies kc.contains(
            byte_column(s, #[trigger] st[k]),
        ) by {
            if k < prev.len() {
                assert(prev[k] == st[k]);
                let i = choose|i: int| 0 <= i < kp.len() && kp[i] == byte_column(s, prev[k]);
                assert(kc[i] == kp[i]);
            } else {
                assert(kc[kc.len() - 1] == byte_column(s, st[k]));
            }
        }
    }
}

/// The columns that a line scan reports are exactly the columns at which an identifier
/// that is not a keyword starts.
pub proof fn lemma_identifier_columns_exact(s: Seq<char>, c: u32)
    ensures
        identifier_columns_of(s).contains(c) <==> exists|j: int|
            starts_word(s, j) && !is_keyword_text(s.subrange(j, word_end(s, j))) && c == #[trigger] byte_column(s, j),
{
    let ws = word_starts(s, s.len() as int);
    lemma_word_starts_members(s, s.len() as int);
    lemma_kept_columns_members(s, ws);
    if identifier_columns_of(s).contains(c) {
        let i = choose|i: int| 0 <= i < identifier_columns_of(s).len() && identifier_columns_of(s)[i] == c;
        assert(kept_columns(s, ws)[i] == c);
        let k = choose|k: int|
            0 <= k < ws.len() && !is_keyword_text(s.subrange(ws[k], word_end(s, ws[k])))
                && #[trigger] kept_columns(s, ws)[i] == byte_column(s, ws[k]);
        assert(starts_word(s, ws[k]));
    }
    if exists|j: int| starts_word(s, j) && !is_keyword_text(s.subrange(j, word_end(s, j))) && c == #[trigger] byte_column(s, j) {
        let j = choose|j: int| starts_word(s, j) && !is_keyword_text(s.subrange(j, word_end(s, j))) && c == #[trigger] byte_column(s, j);
        assert(ws.contains(j));
        let k = choose|k: int| 0 <= k < ws.len() && ws[k] == j;
        assert(kept_columns(s, ws).contains(byte_column(s, ws[k])));
    }
}


proof fn lemma_word_starts_increasing(s: Seq<char>, n: int)
    requires
        0 <= n <= s.len(),
    ensures
        forall|a: int, b: int|
            0 <= a < b < word_starts(s, n).len() ==> #[trigger] word_starts(s, n)[a]
                < #[trigger] word_starts(s, n)[b],
    decreases n,
{
    if n > 0 {
        lemma_word_starts_increasing(s, n - 1);
        lemma_word_starts_members(s, n - 1);
        let prev = word_starts(s, n - 1);
        let ws = word_starts(s, n);
        assert forall|a: int, b: int| 0 <= a < b < ws.len() implies #[trigger] ws[a] < #[trigger] ws[b] by {
            assert(ws[a] == prev[a]);
            if b < prev.len() {
                assert(ws[b] == prev[b]);
            } else {
                assert(ws[b] == n - 1);
                assert(prev[a] < n - 1);
            }
        }
    }
}

/// A longer prefix has a longer UTF-8 encoding: every character takes at least one byte.
proof fn lemma_utf8_len_prefix_increasing(s: Seq<char>, i: int, j: int)
    requires
        0 <= i < j <= s.len(),
    ensures
        utf8_len(s.take(i)) < utf8_len(s.take(j)),
    decreases j - i,
{
    lemma_utf8_len_split(s, j - 1);
    if i < j - 1 {
        lemma_utf8_len_prefix_increasing(s, i, j - 1);
    }
}

/// Where the whole line fits in a `u32`, the column of a position is its byte offset plus one.
proof fn lemma_byte_column_exact(s: Seq<char>, j: int)
    requires
        0 <= j < s.len(),
        utf8_len(s) <= u32::MAX,
    ensures
        byte_column(s, j) == utf8_len(s.take(j)) + 1,
{
    lemma_utf8_len_prefix_increasing(s, j, s.len() as int);
    assert(s.take(s.len() as int) =~= s);
}

proof fn lemma_kept_columns_increasing(s: Seq<char>, st: Seq<int>)
    requires
        utf8_len(s) <= u32::MAX,
        forall|k: int| 0 <= k < st.len() ==> 0 <= #[trigger] st[k] < s.len(),
        forall|a: int, b: int| 0 <= a < b < st.len() ==> #[trigger] st[a] < #[trigger] st[b],
    ensures
        forall|a: int, b: int|
            0 <= a < b < kept_columns(s, st).len() ==> #[trigger] kept_columns(s, st)[a]
                < #[trigger] kept_columns(s, st)[b],
    decreases st.len(),
{
    if st.len() > 0 {
        let prev = st.drop_last();
        assert forall|k: int| 0 <= k < prev.len() implies 0 <= #[trigger] prev[k] < s.len() by {
            assert(prev[k] == st[k]);
        }
        assert forall|a: int, b: int| 0 <= a < b < prev.len() implies #[trigger] prev[a] < #[trigger] prev[b] by {
            assert(prev[a] == st[a] && prev[b] == st[b]);
        }
        lemma_kept_columns_increasing(s, prev);
        lemma_kept_columns_members(s, prev);
        let kc = kept_columns(s, st);
        let kp = kept_columns(s, prev);
        let last = st.last();
        assert(st[st.len() - 1] == last);
        assert forall|a: int, b: int| 0 <= a < b < kc.len() implies #[trigger] kc[a] < #[trigger] kc[b] by {
            assert(kc[a] == kp[a]);
            if b < kp.len() {
                assert(kc[b] == kp[b]);
            } else {
                assert(kc[b] == byte_column(s, last));
                let k = choose|k: int|
                    0 <= k < prev.len() && !is_keyword_text(s.subrange(prev[k], word_end(s, prev[k])))
                        && #[trigger] kp[a] == byte_column(s, prev[k]);
                assert(prev[k] == st[k]);
                assert(st[k] < last);
                lemma_byte_column_exact(s, prev[k]);
                lemma_byte_column_exact(s, last);
                lemma_utf8_len_prefix_increasing(s, prev[k], last);
            }
        }
    }
}

/// The columns that a line scan reports increase strictly from left to right.
pub proof fn lemma_identifier_columns_increasing(s: Seq<char>)
    requires
        utf8_len(s) <= u32::MAX,
    ensures
        forall|a: int, b: int|
            0 <= a < b < identifier_columns_of(s).len() ==> #[trigger] identifier_columns_of(s)[a]
                < #[trigger] identifier_columns_of(s)[b],
{
    let ws = word_starts(s, s.len() as int);
    lemma_word_starts_members(s, s.len() as int);
    lemma_word_starts_increasing(s, s.len() as int);
    assert forall|k: int| 0 <= k < ws.len() implies 0 <= #[trigger] ws[k] < s.len() by {
        assert(starts_word(s, ws[k]));
    }
    lemma_kept_columns_increasing(s, ws);
}

/// The keywords are exactly these twenty-four words: `fn`, `let`, `mut`, `pub`, `struct`,
/// `enum`, `impl`, `for`, `while`, `loop`, `if`, `else`, `match`, `return`, `use`, `mod`,
/// `crate`, `self`, `Self`, `super`, `where`, `as`, `true`, `false`.
pub proof fn lemma_keyword_list(w: Seq<char>)
    ensures
        is_keyword_text(w) <==> {
            ||| w == "fn"@
            ||| w == "let"@
            ||| w == "mut"@
            ||| w == "pub"@
            ||| w == "struct"@
            ||| w == "enum"@
            ||| w == "impl"@
            ||| w == "for"@
            ||| w == "while"@
            ||| w == "loop"@
            ||| w == "if"@
            ||| w == "else"@
            ||| w == "match"@
            ||| w == "return"@
            ||| w == "use"@
            ||| w == "mod"@
            ||| w == "crate"@
            ||| w == "self"@
            ||| w == "Self"@
            ||| w == "super"@
            ||| w == "where"@
            ||| w == "as"@
            ||| w == "true"@
            ||| w == "false"@
        },
{
}

/// An identifier `return` on a line is never reported by the line scan.
pub proof fn lemma_return_never_reported(s: Seq<char>, j: int)
    requires
        utf8_len(s) <= u32::MAX,
        starts_word(s, j),
        s.subrange(j, word_end(s, j)) == "return"@,
    ensures
        !identifier_columns_of(s).contains(byte_column(s, j)),
{
    lemma_keyword_list(s.subrange(j, word_end(s, j)));
    lemma_identifier_columns_exact(s, byte_column(s, j));
    if identifier_columns_of(s).contains(byte_column(s, j)) {
        let k = choose|k: int|
            starts_word(s, k) && !is_keyword_text(s.subrange(k, word_end(s, k))) && byte_column(s, j)
                == #[trigger] byte_column(s, k);
        lemma_byte_column_exact(s, j);
        lemma_byte_column_exact(s, k);
        if j < k {
            lemma_utf8_len_prefix_increasing(s, j, k);
        } else if k < j {
            lemma_utf8_len_prefix_increasing(s, k, j);
        }
    }
}

} // verus!
