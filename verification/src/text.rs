use vstd::prelude::*;

verus! {

/// Compares two string slices.
pub(crate) fn str_eq(a: &str, b: &str) -> (r: bool)
    ensures
        r == (a@ == b@),
{
    let x = str_chars(a);
    let y = str_chars(b);
    if x.len() != y.len() {
        return false;
    }
    let mut i: usize = 0;
    while i < x.len()
        invariant
            x@ == a@,
            y@ == b@,
            x@.len() == y@.len(),
            i <= x@.len(),
            forall|j: int| 0 <= j < i ==> x@[j] == y@[j],
        decreases x@.len() - i,
    {
        if x[i] != y[i] {
            return false;
        }
        i = i + 1;
    }
    assert(x@ =~= y@);
    true
}

/// The one-character string `c`.
#[verifier::external_body]
pub(crate) fn char_to_string(c: char) -> (s: String)
    ensures
        s@ == seq![c],
{
    c.to_string()
}

/// The characters of a string.
pub(crate) fn str_chars(s: &str) -> (r: Vec<char>)
    ensures
        r@ == s@,
{
    broadcast use vstd::string::axiom_spec_iter;
    let mut v: Vec<char> = Vec::new();
    for c in it: s.chars()
        invariant
            it.seq() == s@,
            v@ == it.seq().take(it.index() as int),
    {
        v.push(c);
    }
    v
}

/// The string of the given characters.
pub(crate) fn string_from_chars(cs: &[char]) -> (r: String)
    ensures
        r@ == cs@,
{
    let mut r = String::new();
    let mut i: usize = 0;
    while i < cs.len()
        invariant
            i <= cs@.len(),
            r@ == cs@.take(i as int),
        decreases cs@.len() - i,
    {
        let one = char_to_string(cs[i]);
        r.append(one.as_str());
        assert(cs@.take(i + 1) =~= cs@.take(i as int) + seq![cs@[i as int]]);
        i = i + 1;
    }
    assert(cs@.take(cs@.len() as int) =~= cs@);
    r
}

/// A string's characters followed by `b`'s.
pub(crate) fn str_concat(a: &str, b: &str) -> (r: String)
    ensures
        r@ == a@ + b@,
{
    let mut s = a.to_owned();
    s.append(b);
    s
}

/// `c` with an ASCII capital letter made small.
pub open spec fn ascii_lower(c: char) -> char {
    if 'A' <= c && c <= 'Z' {
        ((c as u32) + 32) as char
    } else {
        c
    }
}

/// Whether `c` is an ASCII capital letter.
pub open spec fn is_ascii_upper(c: char) -> bool {
    'A' <= c && c <= 'Z'
}

/// Lower-cases an ASCII capital letter; other characters are kept.
pub(crate) fn to_ascii_lowercase(c: char) -> (r: char)
    ensures
        r == ascii_lower(c),
{
    if 'A' <= c && c <= 'Z' {
        ((c as u8) + 32) as char
    } else {
        c
    }
}

/// The number of bytes of `c` in UTF-8.
pub open spec fn char_len(c: char) -> nat {
    if (c as u32) < 0x80 {
        1
    } else if (c as u32) < 0x800 {
        2
    } else if (c as u32) < 0x10000 {
        3
    } else {
        4
    }
}

/// The number of bytes of `s` in UTF-8.
pub open spec fn utf8_len(s: Seq<char>) -> nat
    decreases s.len(),
{
    if s.len() == 0 {
        0
    } else {
        utf8_len(s.drop_last()) + char_len(s.last())
    }
}

/// The number of bytes of `c` in UTF-8.
pub fn char_len_utf8(c: char) -> (r: usize)
    ensures
        r == char_len(c),
        1 <= r <= 4,
{
    let u = c as u32;
    if u < 0x80 {
        1
    } else if u < 0x800 {
        2
    } else if u < 0x10000 {
        3
    } else {
        4
    }
}

pub proof fn lemma_utf8_len_append(a: Seq<char>, b: Seq<char>)
    ensures
        utf8_len(a + b) == utf8_len(a) + utf8_len(b),
    decreases b.len(),
{
    if b.len() > 0 {
        lemma_utf8_len_append(a, b.drop_last());
        assert((a + b).drop_last() =~= a + b.drop_last());
    } else {
        assert(a + b =~= a);
    }
}

pub proof fn lemma_utf8_len_prefix(s: Seq<char>, k: int)
    requires
        0 <= k <= s.len(),
    ensures
        utf8_len(s.take(k)) <= utf8_len(s),
        k < s.len() ==> utf8_len(s.take(k + 1)) == utf8_len(s.take(k)) + char_len(s[k]),
{
    lemma_utf8_len_append(s.take(k), s.skip(k));
    assert(s.take(k) + s.skip(k) =~= s);
    if k < s.len() {
        assert(s.take(k + 1).drop_last() =~= s.take(k));
    }
}

pub proof fn lemma_utf8_len_one(c: char)
    ensures
        utf8_len(seq![c]) == char_len(c),
{
    let one = seq![c];
    assert(one.drop_last() =~= Seq::<char>::empty());
    assert(utf8_len(one.drop_last()) == 0);
    assert(one.last() == c);
}

/// The byte length that std reports for a string is the length of its UTF-8
/// encoding.
pub proof fn lemma_encode_utf8_len(s: Seq<char>)
    ensures
        vstd::utf8::encode_utf8(s).len() == utf8_len(s),
    decreases s.len(),
{
    if s.len() > 0 {
        lemma_encode_utf8_len(s.drop_first());
        lemma_utf8_len_append(seq![s[0]], s.drop_first());
        assert(seq![s[0]] + s.drop_first() =~= s);
        let one = seq![s[0]];
        assert(one.drop_last() =~= Seq::<char>::empty());
        assert(utf8_len(one.drop_last()) == 0);
        assert(one.last() == s[0]);
        lemma_encode_scalar_len(s[0]);
        assert(utf8_len(one) == char_len(s[0]));
        assert(vstd::utf8::encode_utf8(s) == vstd::utf8::encode_scalar(s[0] as u32)
            + vstd::utf8::encode_utf8(s.drop_first()));
    }
}

proof fn lemma_encode_scalar_len(c: char)
    ensures
        vstd::utf8::encode_scalar(c as u32).len() == char_len(c),
{
    vstd::utf8::char_is_scalar(c);
}

/// The number of bytes of a string.
pub fn str_len_bytes(s: &str) -> (n: usize)
    ensures
        n == utf8_len(s@),
{
    proof {
        lemma_encode_utf8_len(s@);
    }
    s.as_bytes().len()
}

/// A string with its trailing carriage returns and line feeds removed.
pub open spec fn trim_newlines(s: Seq<char>) -> Seq<char>
    decreases s.len(),
{
    if s.len() > 0 && (s.last() == '\r' || s.last() == '\n') {
        trim_newlines(s.drop_last())
    } else {
        s
    }
}

pub proof fn lemma_trim_newlines_prefix(s: Seq<char>)
    ensures
        trim_newlines(s).len() <= s.len(),
        trim_newlines(s) == s.take(trim_newlines(s).len() as int),
    decreases s.len(),
{
    if s.len() > 0 && (s.last() == '\r' || s.last() == '\n') {
        lemma_trim_newlines_prefix(s.drop_last());
        assert(s.drop_last().take(trim_newlines(s).len() as int) =~= s.take(
            trim_newlines(s).len() as int,
        ));
    } else {
        assert(s.take(s.len() as int) =~= s);
    }
}

/// Removes the trailing carriage returns and line feeds of a string.
pub fn trim_end_newline_code(s: String) -> (r: String)
    ensures
        r@ == trim_newlines(s@),
{
    let mut cs = str_chars(s.as_str());
    let ghost orig = cs@;
    while cs.len() > 0 && (cs[cs.len() - 1] == '\r' || cs[cs.len() - 1] == '\n')
        invariant
            trim_newlines(cs@) == trim_newlines(orig),
        decreases cs@.len(),
    {
        let n = cs.len() - 1;
        assert(cs@.drop_last() =~= cs@.take(n as int));
        cs.truncate(n);
    }
    string_from_chars(cs.as_slice())
}

/// Byte `b` falls between two characters of `t`.
pub open spec fn char_boundary(t: Seq<char>, b: int) -> bool {
    exists|k: int| 0 <= k <= t.len() && utf8_len(t.take(k)) == b
}

/// At most one prefix of `t` takes `utf8_len(t.take(k))` bytes.
pub proof fn lemma_boundary_index_unique(t: Seq<char>, k: int)
    requires
        0 <= k <= t.len(),
    ensures
        forall|j: int| 0 <= j <= t.len() && utf8_len(#[trigger] t.take(j)) == utf8_len(t.take(k)) ==> j == k,
{
    assert forall|j: int| 0 <= j <= t.len() && utf8_len(#[trigger] t.take(j)) == utf8_len(t.take(k)) implies j == k by {
        if j < k {
            lemma_utf8_len_mono(t, j, k);
        } else if k < j {
            lemma_utf8_len_mono(t, k, j);
        }
    }
}

pub proof fn lemma_utf8_len_mono(t: Seq<char>, i: int, j: int)
    requires
        0 <= i <= j <= t.len(),
    ensures
        utf8_len(t.take(i)) <= utf8_len(t.take(j)),
        i < j ==> utf8_len(t.take(i)) < utf8_len(t.take(j)),
{
    lemma_utf8_len_prefix(t.take(j), i);
    assert(t.take(j).take(i) =~= t.take(i));
    if i < j {
        lemma_utf8_len_prefix(t.take(j), i + 1);
        assert(t.take(j).take(i + 1) =~= t.take(i + 1));
        lemma_utf8_len_prefix(t.take(j), i);
    }
}

/// The number of bytes of the first `k` characters.
pub fn prefix_bytes(cs: &Vec<char>, k: usize) -> (n: usize)
    requires
        k <= cs@.len(),
        utf8_len(cs@) <= usize::MAX,
    ensures
        n == utf8_len(cs@.take(k as int)),
{
    let mut n: usize = 0;
    let mut i: usize = 0;
    assert(cs@.take(0) =~= Seq::<char>::empty());
    while i < k
        invariant
            i <= k <= cs@.len(),
            utf8_len(cs@) <= usize::MAX,
            n == utf8_len(cs@.take(i as int)),
        decreases k - i,
    {
        proof {
            lemma_utf8_len_prefix(cs@, i as int);
            lemma_utf8_len_prefix(cs@, i + 1);
        }
        n = n + char_len_utf8(cs[i]);
        i = i + 1;
    }
    n
}

/// The character at which byte `b` starts, if one starts there.
pub fn char_index_at(cs: &Vec<char>, b: usize) -> (r: Option<usize>)
    requires
        utf8_len(cs@) <= usize::MAX,
    ensures
        match r {
            Some(k) => k <= cs@.len() && utf8_len(cs@.take(k as int)) == b,
            None => !char_boundary(cs@, b as int),
        },
{
    let mut n: usize = 0;
    let mut i: usize = 0;
    assert(cs@.take(0) =~= Seq::<char>::empty());
    while i < cs.len() && n < b
        invariant
            i <= cs@.len(),
            utf8_len(cs@) <= usize::MAX,
            n == utf8_len(cs@.take(i as int)),
            forall|j: int| 0 <= j < i ==> utf8_len(cs@.take(j)) < b,
        decreases cs@.len() - i,
    {
        proof {
            lemma_utf8_len_prefix(cs@, i as int);
            lemma_utf8_len_prefix(cs@, i + 1);
            assert forall|j: int| 0 <= j < i + 1 implies utf8_len(cs@.take(j)) < b by {
                if j == i {
                }
            }
        }
        n = n + char_len_utf8(cs[i]);
        i = i + 1;
    }
    if n == b {
        return Some(i);
    }
    proof {
        assert forall|k: int| 0 <= k <= cs@.len() implies utf8_len(cs@.take(k)) != b by {
            if k > i {
                lemma_utf8_len_mono(cs@, i as int, k);
            } else if k == i {
            } else {
            }
        }
    }
    None
}

/// Unicode white space, the characters that `char::is_whitespace` accepts.
pub open spec fn is_white(c: char) -> bool {
    let u = c as u32;
    ||| 0x9 <= u <= 0xd
    ||| u == 0x20
    ||| u == 0x85
    ||| u == 0xa0
    ||| u == 0x1680
    ||| 0x2000 <= u <= 0x200a
    ||| u == 0x2028
    ||| u == 0x2029
    ||| u == 0x202f
    ||| u == 0x205f
    ||| u == 0x3000
}

pub fn is_whitespace(c: char) -> (r: bool)
    ensures
        r == is_white(c),
{
    let u = c as u32;
    (0x9 <= u && u <= 0xd) || u == 0x20 || u == 0x85 || u == 0xa0 || u == 0x1680 || (0x2000 <= u
        && u <= 0x200a) || u == 0x2028 || u == 0x2029 || u == 0x202f || u == 0x205f || u == 0x3000
}

/// The maximal runs of non-white characters of `s`, in order.
pub open spec fn words(s: Seq<char>) -> Seq<Seq<char>>
    decreases s.len(),
{
    if s.len() == 0 {
        Seq::empty()
    } else {
        let w = words(s.drop_last());
        if is_white(s.last()) {
            w
        } else if s.len() >= 2 && !is_white(s[s.len() - 2]) {
            w.update(w.len() - 1, w.last().push(s.last()))
        } else {
            w.push(seq![s.last()])
        }
    }
}

pub proof fn lemma_words_nonempty(s: Seq<char>)
    requires
        s.len() > 0,
        !is_white(s.last()),
    ensures
        words(s).len() > 0,
        words(s).last().len() > 0,
    decreases s.len(),
{
    if s.len() >= 2 && !is_white(s[s.len() - 2]) {
        lemma_words_nonempty(s.drop_last());
    }
}

/// Splits a string at white space, dropping the empty pieces.
pub fn split_whitespace(s: &Vec<char>) -> (r: Vec<Vec<char>>)
    ensures
        r@.len() == words(s@).len(),
        forall|i: int| 0 <= i < r@.len() ==> #[trigger] r@[i]@ == words(s@)[i],
{
    let mut done: Vec<Vec<char>> = Vec::new();
    let mut cur: Vec<char> = Vec::new();
    let mut i: usize = 0;
    assert(s@.take(0) =~= Seq::<char>::empty());
    while i < s.len()
        invariant
            i <= s@.len(),
            i > 0 && !is_white(s@[i - 1]) ==> {
                &&& cur@.len() > 0
                &&& done@.len() + 1 == words(s@.take(i as int)).len()
                &&& forall|j: int| 0 <= j < done@.len() ==> #[trigger] done@[j]@ == words(s@.take(i as int))[j]
                &&& cur@ == words(s@.take(i as int)).last()
            },
            !(i > 0 && !is_white(s@[i - 1])) ==> {
                &&& cur@.len() == 0
                &&& done@.len() == words(s@.take(i as int)).len()
                &&& forall|j: int| 0 <= j < done@.len() ==> #[trigger] done@[j]@ == words(s@.take(i as int))[j]
            },
        decreases s@.len() - i,
    {
        let ghost p = s@.take(i as int);
        let ghost q = s@.take(i + 1);
        assert(q.drop_last() =~= p);
        assert(q.last() == s@[i as int]);
        if i > 0 {
            assert(q[q.len() - 2] == s@[i - 1]);
        }
        if is_whitespace(s[i]) {
            if cur.len() > 0 {
                let w = cur;
                done.push(w);
                cur = Vec::new();
            }
        } else {
            proof {
                if i > 0 && !is_white(s@[i - 1]) {
                    lemma_words_nonempty(p);
                }
            }
            cur.push(s[i]);
        }
        i = i + 1;
    }
    if cur.len() > 0 {
        let w = cur;
        done.push(w);
    }
    assert(s@.take(s@.len() as int) =~= s@);
    done
}

/// `cs` with the characters from `a` to `b` replaced by `ins`.
pub fn splice_chars(cs: &Vec<char>, a: usize, b: usize, ins: &[char]) -> (r: Vec<char>)
    requires
        a <= b <= cs@.len(),
    ensures
        r@ == cs@.take(a as int) + ins@ + cs@.skip(b as int),
{
    let mut r: Vec<char> = Vec::new();
    let mut i: usize = 0;
    while i < a
        invariant
            i <= a <= b <= cs@.len(),
            r@ == cs@.take(i as int),
        decreases a - i,
    {
        r.push(cs[i]);
        i = i + 1;
        assert(r@ =~= cs@.take(i as int));
    }
    let mut j: usize = 0;
    while j < ins.len()
        invariant
            a <= b <= cs@.len(),
            j <= ins@.len(),
            r@ == cs@.take(a as int) + ins@.take(j as int),
        decreases ins@.len() - j,
    {
        r.push(ins[j]);
        j = j + 1;
        assert(r@ =~= cs@.take(a as int) + ins@.take(j as int));
    }
    assert(ins@.take(ins@.len() as int) =~= ins@);
    let mut k: usize = b;
    while k < cs.len()
        invariant
            a <= b <= k <= cs@.len(),
            r@ == cs@.take(a as int) + ins@ + cs@.subrange(b as int, k as int),
        decreases cs@.len() - k,
    {
        r.push(cs[k]);
        k = k + 1;
        assert(r@ =~= cs@.take(a as int) + ins@ + cs@.subrange(b as int, k as int));
    }
    assert(cs@.subrange(b as int, cs@.len() as int) =~= cs@.skip(b as int));
    r
}

/// The decimal digit of `d`, for `d` below ten.
pub open spec fn digit_char(d: nat) -> char {
    if d == 0 {
        '0'
    } else if d == 1 {
        '1'
    } else if d == 2 {
        '2'
    } else if d == 3 {
        '3'
    } else if d == 4 {
        '4'
    } else if d == 5 {
        '5'
    } else if d == 6 {
        '6'
    } else if d == 7 {
        '7'
    } else if d == 8 {
        '8'
    } else {
        '9'
    }
}

/// The decimal notation of `n`, without leading zeros.
pub open spec fn decimal(n: nat) -> Seq<char>
    decreases n,
{
    if n < 10 {
        seq![digit_char(n)]
    } else {
        decimal(n / 10).push(digit_char(n % 10))
    }
}

fn push_decimal(n: usize, out: &mut Vec<char>)
    ensures
        final(out)@ == old(out)@ + decimal(n as nat),
    decreases n,
{
    if n >= 10 {
        push_decimal(n / 10, out);
    }
    let d = n % 10;
    let c = if d == 0 {
        '0'
    } else if d == 1 {
        '1'
    } else if d == 2 {
        '2'
    } else if d == 3 {
        '3'
    } else if d == 4 {
        '4'
    } else if d == 5 {
        '5'
    } else if d == 6 {
        '6'
    } else if d == 7 {
        '7'
    } else if d == 8 {
        '8'
    } else {
        '9'
    };
    let ghost before = out@;
    out.push(c);
    proof {
        if n >= 10 {
            assert(out@ =~= old(out)@ + decimal(n as nat));
        } else {
            assert(out@ =~= old(out)@ + decimal(n as nat));
        }
    }
}

/// The decimal notation of `n`.
pub fn usize_to_decimal(n: usize) -> (s: String)
    ensures
        s@ == decimal(n as nat),
{
    let mut v: Vec<char> = Vec::new();
    push_decimal(n, &mut v);
    assert(v@ =~= decimal(n as nat));
    string_from_chars(v.as_slice())
}

/// The pieces of `s` between the occurrences of `sep`; there is one more piece
/// than there are separators.
pub open spec fn split_on(s: Seq<char>, sep: char) -> Seq<Seq<char>>
    decreases s.len(),
{
    if s.len() == 0 {
        seq![Seq::empty()]
    } else {
        let r = split_on(s.drop_last(), sep);
        if s.last() == sep {
            r.push(Seq::empty())
        } else {
            r.update(r.len() - 1, r.last().push(s.last()))
        }
    }
}

pub proof fn lemma_split_on_nonempty(s: Seq<char>, sep: char)
    ensures
        split_on(s, sep).len() >= 1,
    decreases s.len(),
{
    if s.len() > 0 {
        lemma_split_on_nonempty(s.drop_last(), sep);
    }
}

/// Splits a string's characters at each occurrence of `sep`.
pub fn split_chars(s: &[char], sep: char) -> (r: Vec<Vec<char>>)
    ensures
        r@.len() == split_on(s@, sep).len(),
        forall|i: int| 0 <= i < r@.len() ==> #[trigger] r@[i]@ == split_on(s@, sep)[i],
{
    let mut r: Vec<Vec<char>> = Vec::new();
    let mut cur: Vec<char> = Vec::new();
    let mut i: usize = 0;
    while i < s.len()
        invariant
            i <= s@.len(),
            r@.len() + 1 == split_on(s@.take(i as int), sep).len(),
            forall|j: int| 0 <= j < r@.len() ==> #[trigger] r@[j]@ == split_on(s@.take(i as int), sep)[j],
            cur@ == split_on(s@.take(i as int), sep).last(),
        decreases s@.len() - i,
    {
        proof {
            assert(s@.take(i + 1).drop_last() =~= s@.take(i as int));
            lemma_split_on_nonempty(s@.take(i as int), sep);
        }
        if s[i] == sep {
            let done = cur;
            r.push(done);
            cur = Vec::new();
        } else {
            cur.push(s[i]);
        }
        i = i + 1;
    }
    assert(s@.take(s@.len() as int) =~= s@);
    r.push(cur);
    r
}

} // verus!
