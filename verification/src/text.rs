//! Character-level helpers shared by the text-processing parts of the crate.

use vstd::prelude::*;

verus! {

broadcast use vstd::string::group_string_axioms;

/// The characters of `s`, in order.
pub fn chars_of(s: &str) -> (v: Vec<char>)
    ensures
        v@ == s@,
{
    let mut v: Vec<char> = Vec::new();
    for c in it: s.chars()
        invariant
            v@ == it.seq().take(it.index() as int),
            it.seq() == s@,
    {
        v.push(c);
    }
    v
}

} // verus!

verus! {

/// `k` is the length of the longest run of characters satisfying `p` at the
/// front of `s`.
pub open spec fn is_front_run(s: Seq<char>, p: spec_fn(char) -> bool, k: int) -> bool {
    &&& 0 <= k <= s.len()
    &&& forall|j: int| 0 <= j < k ==> #[trigger] p(s[j])
    &&& (k == s.len() || !p(s[k]))
}

/// `k` is the length of the longest run of characters satisfying `p` at the
/// back of `s`.
pub open spec fn is_back_run(s: Seq<char>, p: spec_fn(char) -> bool, k: int) -> bool {
    &&& 0 <= k <= s.len()
    &&& forall|j: int| s.len() - k <= j < s.len() ==> #[trigger] p(s[j])
    &&& (k == s.len() || !p(s[s.len() - 1 - k]))
}

pub open spec fn front_run(s: Seq<char>, p: spec_fn(char) -> bool) -> int {
    choose|k: int| is_front_run(s, p, k)
}

pub open spec fn back_run(s: Seq<char>, p: spec_fn(char) -> bool) -> int {
    choose|k: int| is_back_run(s, p, k)
}

/// `s` without the characters satisfying `p` at its end.
pub open spec fn trim_back_by(s: Seq<char>, p: spec_fn(char) -> bool) -> Seq<char> {
    s.take(s.len() - back_run(s, p))
}

/// `s` without the characters satisfying `p` at either end.
pub open spec fn trim_both_by(s: Seq<char>, p: spec_fn(char) -> bool) -> Seq<char> {
    trim_back_by(s.skip(front_run(s, p)), p)
}

/// `i` is the position of the first `c` in `s`.
pub open spec fn is_first_index(s: Seq<char>, c: char, i: int) -> bool {
    &&& 0 <= i < s.len()
    &&& s[i] == c
    &&& forall|j: int| 0 <= j < i ==> s[j] != c
}

/// Position of the first `c` in `s`, if any.
pub open spec fn first_index(s: Seq<char>, c: char) -> Option<int> {
    if exists|i: int| is_first_index(s, c, i) {
        Some(choose|i: int| is_first_index(s, c, i))
    } else {
        None
    }
}

pub proof fn lemma_front_run_unique(s: Seq<char>, p: spec_fn(char) -> bool, k: int)
    requires
        is_front_run(s, p, k),
    ensures
        front_run(s, p) == k,
{
    let k2 = front_run(s, p);
    assert(is_front_run(s, p, k2));
    if k2 < k {
        assert(p(s[k2]));
    } else if k < k2 {
        assert(p(s[k]));
    }
}

pub proof fn lemma_back_run_unique(s: Seq<char>, p: spec_fn(char) -> bool, k: int)
    requires
        is_back_run(s, p, k),
    ensures
        back_run(s, p) == k,
{
    let k2 = back_run(s, p);
    assert(is_back_run(s, p, k2));
    if k2 < k {
        assert(p(s[s.len() - 1 - k2]));
    } else if k < k2 {
        assert(p(s[s.len() - 1 - k]));
    }
}

pub proof fn lemma_first_index_found(s: Seq<char>, c: char, i: int)
    requires
        is_first_index(s, c, i),
    ensures
        first_index(s, c) == Some(i),
{
    let i2 = choose|i: int| is_first_index(s, c, i);
    assert(is_first_index(s, c, i2));
    if i2 < i {
        assert(s[i2] != c);
    } else if i < i2 {
        assert(s[i] != c);
    }
}

pub proof fn lemma_first_index_absent(s: Seq<char>, c: char)
    requires
        forall|j: int| 0 <= j < s.len() ==> s[j] != c,
    ensures
        first_index(s, c) is None,
{
}

} // verus!

verus! {

/// Appends `c` to `s` (`String::push`, which the standard library documents
/// as appending the given char to the end of the string).
#[verifier::external_body]
pub(crate) fn push_char(s: &mut String, c: char)
    ensures
        final(s)@ == old(s)@.push(c),
{
    s.push(c);
}

/// A string made of the characters of `cs`.
pub fn string_from_chars(cs: &[char]) -> (r: String)
    ensures
        r@ == cs@,
{
    let mut r = String::new();
    let mut i: usize = 0;
    while i < cs.len()
        invariant
            i <= cs@.len(),
            r@ == cs@.take(i as int),
        decreases cs@.len() - i,
    {
        push_char(&mut r, cs[i]);
        proof {
            assert(cs@.take(i + 1) =~= cs@.take(i as int).push(cs@[i as int]));
        }
        i += 1;
    }
    assert(cs@.take(cs@.len() as int) =~= cs@);
    r
}

/// The decimal digit `d` as a character.
pub open spec fn digit_char(d: nat) -> char {
    if d == 0 { '0' }
    else if d == 1 { '1' }
    else if d == 2 { '2' }
    else if d == 3 { '3' }
    else if d == 4 { '4' }
    else if d == 5 { '5' }
    else if d == 6 { '6' }
    else if d == 7 { '7' }
    else if d == 8 { '8' }
    else { '9' }
}

/// The decimal notation of `n`, without leading zeros.
pub open spec fn decimal(n: nat) -> Seq<char>
    decreases n,
{
    if n < 10 {
        seq![digit_char(n)]
    } else {
        decimal(n / 10).push(digit_char(n % 10))
    }
}

/// The decimal notation of a signed `n`, with a leading minus when negative.
pub open spec fn signed_decimal(n: int) -> Seq<char> {
    if n < 0 {
        seq!['-'] + decimal((-n) as nat)
    } else {
        decimal(n as nat)
    }
}

fn digit_to_char(d: u64) -> (c: char)
    requires
        d < 10,
    ensures
        c == digit_char(d as nat),
{
    if d == 0 { '0' }
    else if d == 1 { '1' }
    else if d == 2 { '2' }
    else if d == 3 { '3' }
    else if d == 4 { '4' }
    else if d == 5 { '5' }
    else if d == 6 { '6' }
    else if d == 7 { '7' }
    else if d == 8 { '8' }
    else { '9' }
}

/// Appends the decimal notation of `n` to `s`.
pub fn push_decimal(s: &mut String, n: u64)
    ensures
        final(s)@ == old(s)@ + decimal(n as nat),
    decreases n,
{
    if n >= 10 {
        push_decimal(s, n / 10);
    }
    push_char(s, digit_to_char(n % 10));
    proof {
        if n < 10 {
            assert(n % 10 == n);
        }
    }
}

/// The decimal notation of `n`.
pub fn u64_to_decimal(n: u64) -> (r: String)
    ensures
        r@ == decimal(n as nat),
{
    let mut s = String::new();
    push_decimal(&mut s, n);
    s
}

/// The decimal notation of `n`, with a minus sign when it is negative.
pub fn i64_to_decimal(n: i64) -> (r: String)
    ensures
        r@ == signed_decimal(n as int),
{
    let mut s = String::new();
    if n < 0 {
        push_char(&mut s, '-');
        let m: u64 = if n == i64::MIN {
            9223372036854775808u64
        } else {
            (-n) as u64
        };
        push_decimal(&mut s, m);
    } else {
        push_decimal(&mut s, n as u64);
    }
    s
}

} // verus!

verus! {

/// Lexicographic order of texts by code point, as `str`'s `Ord` compares
/// them (UTF-8 bytes order code points the same way).
pub open spec fn text_le(a: Seq<char>, b: Seq<char>) -> bool
    decreases a.len(),
{
    if a.len() == 0 {
        true
    } else if b.len() == 0 {
        false
    } else if a[0] != b[0] {
        (a[0] as int) < (b[0] as int)
    } else {
        text_le(a.drop_first(), b.drop_first())
    }
}

pub proof fn lemma_text_le_total(a: Seq<char>, b: Seq<char>)
    ensures
        text_le(a, b) || text_le(b, a),
    decreases a.len(),
{
    if a.len() > 0 && b.len() > 0 {
        if a[0] == b[0] {
            lemma_text_le_total(a.drop_first(), b.drop_first());
        } else {
            assert((a[0] as int) != (b[0] as int));
        }
    }
}

pub proof fn lemma_text_le_transitive(a: Seq<char>, b: Seq<char>, c: Seq<char>)
    requires
        text_le(a, b),
        text_le(b, c),
    ensures
        text_le(a, c),
    decreases a.len(),
{
    if a.len() > 0 && b.len() > 0 && c.len() > 0 {
        if a[0] == b[0] && b[0] == c[0] {
            lemma_text_le_transitive(a.drop_first(), b.drop_first(), c.drop_first());
        } else {
            assert((a[0] as int) != (c[0] as int) || a[0] == c[0]);
            if a[0] == c[0] {
                assert((a[0] as int) <= (b[0] as int) && (b[0] as int) <= (c[0] as int));
                assert(a[0] == b[0]);
            }
        }
    }
}

proof fn lemma_text_le_skip(a: Seq<char>, b: Seq<char>, i: int)
    requires
        0 <= i < a.len(),
        i < b.len(),
        a[i] == b[i],
    ensures
        text_le(a.skip(i), b.skip(i)) == text_le(a.skip(i + 1), b.skip(i + 1)),
{
    assert(a.skip(i).drop_first() =~= a.skip(i + 1));
    assert(b.skip(i).drop_first() =~= b.skip(i + 1));
}

/// Whether `a` comes before `b`, or equals it, in code point order.
pub fn text_le_exec(a: &str, b: &str) -> (r: bool)
    ensures
        r == text_le(a@, b@),
{
    let va = chars_of(a);
    let vb = chars_of(b);
    let mut i: usize = 0;
    assert(a@.skip(0) =~= a@ && b@.skip(0) =~= b@);
    while i < va.len() && i < vb.len() && va[i] == vb[i]
        invariant
            i <= va@.len(),
            i <= vb@.len(),
            va@ == a@,
            vb@ == b@,
            text_le(a@, b@) == text_le(a@.skip(i as int), b@.skip(i as int)),
        decreases va@.len() - i,
    {
        proof {
            lemma_text_le_skip(a@, b@, i as int);
        }
        i += 1;
    }
    if i == va.len() {
        return true;
    }
    if i == vb.len() {
        return false;
    }
    proof {
        assert(a@.skip(i as int)[0] == a@[i as int]);
        assert(b@.skip(i as int)[0] == b@[i as int]);
    }
    va[i] < vb[i]
}

} // verus!

verus! {

/// The characters of Unicode's `White_Space` property (what
/// `char::is_whitespace` tests).
pub open spec fn is_white_space(c: char) -> bool {
    ||| c == '\t'
    ||| c == '\n'
    ||| c == '\u{0B}'
    ||| c == '\u{0C}'
    ||| c == '\r'
    ||| c == ' '
    ||| c == '\u{85}'
    ||| c == '\u{A0}'
    ||| c == '\u{1680}'
    ||| (0x2000 <= (c as int) && (c as int) <= 0x200A)
    ||| c == '\u{2028}'
    ||| c == '\u{2029}'
    ||| c == '\u{202F}'
    ||| c == '\u{205F}'
    ||| c == '\u{3000}'
}

pub open spec fn white_space() -> spec_fn(char) -> bool {
    |c: char| is_white_space(c)
}

/// Whether `c` is white space.
pub fn is_white_space_char(c: char) -> (r: bool)
    ensures
        r == is_white_space(c),
{
    c == '\t' || c == '\n' || c == '\u{0B}' || c == '\u{0C}' || c == '\r' || c == ' ' || c
        == '\u{85}' || c == '\u{A0}' || c == '\u{1680}' || ('\u{2000}' <= c && c <= '\u{200A}') || c
        == '\u{2028}' || c == '\u{2029}' || c == '\u{202F}' || c == '\u{205F}' || c == '\u{3000}'
}

/// `s` without its trailing white space.
pub open spec fn trim_end_spec(s: Seq<char>) -> Seq<char> {
    trim_back_by(s, white_space())
}

/// Every line of `s` (the text after the last newline included) without
/// its trailing white space, the lines joined by newlines.
pub open spec fn trim_each_line(s: Seq<char>) -> Seq<char>
    decreases s.len(),
{
    match first_index(s, '\n') {
        None => trim_end_spec(s),
        Some(i) => if 0 <= i < s.len() {
            trim_end_spec(s.take(i)) + seq!['\n'] + trim_each_line(s.skip(i + 1))
        } else {
            s
        },
    }
}

/// The lines of `buffer` as `str::lines` gives them (a last newline ends the
/// last line rather than starting an empty one), each without its trailing
/// white space, joined by newlines.
pub open spec fn trimmed_lines(buffer: Seq<char>) -> Seq<char> {
    if buffer.len() == 0 {
        Seq::empty()
    } else if buffer.last() == '\n' {
        trim_each_line(buffer.drop_last())
    } else {
        trim_each_line(buffer)
    }
}

/// What is saved of `buffer` when trailing white space is trimmed: its
/// trimmed lines, with a last newline when the buffer had one.
pub open spec fn trim_for_save(buffer: Seq<char>) -> Seq<char> {
    let joined = trimmed_lines(buffer);
    if buffer.len() > 0 && buffer.last() == '\n' && !(joined.len() > 0 && joined.last() == '\n') {
        joined.push('\n')
    } else {
        joined
    }
}

/// The first `c` of `v` in `[from, to)`, or `to` when there is none.
pub fn find_char_in(v: &Vec<char>, from: usize, to: usize, c: char) -> (r: usize)
    requires
        from <= to <= v.len(),
    ensures
        from <= r <= to,
        r < to ==> is_first_index(v@.subrange(from as int, to as int), c, r - from),
        r < to ==> first_index(v@.subrange(from as int, to as int), c) == Some(r - from),
        r == to ==> first_index(v@.subrange(from as int, to as int), c) is None,
{
    let ghost w = v@.subrange(from as int, to as int);
    let mut i: usize = from;
    while i < to && v[i] != c
        invariant
            from <= i <= to <= v.len(),
            forall|j: int| from <= j < i ==> v@[j] != c,
        decreases to - i,
    {
        i += 1;
    }
    proof {
        if i == to {
            assert forall|j: int| 0 <= j < w.len() implies w[j] != c by {
                assert(w[j] == v@[from + j]);
            }
            lemma_first_index_absent(w, c);
        } else {
            assert forall|j: int| 0 <= j < i - from implies w[j] != c by {
                assert(w[j] == v@[from + j]);
            }
            lemma_first_index_found(w, c, i - from);
        }
    }
    i
}

/// End of `v[from..to]` without its trailing white space.
fn white_space_end(v: &Vec<char>, from: usize, to: usize) -> (e: usize)
    requires
        from <= to <= v.len(),
    ensures
        from <= e <= to,
        v@.subrange(from as int, e as int) == trim_end_spec(v@.subrange(from as int, to as int)),
{
    let ghost b = v@.subrange(from as int, to as int);
    let mut e: usize = to;
    while e > from && is_white_space_char(v[e - 1])
        invariant
            from <= e <= to <= v.len(),
            forall|m: int| e <= m < to ==> is_white_space(v@[m]),
        decreases e,
    {
        e -= 1;
    }
    proof {
        assert(is_back_run(b, white_space(), to - e)) by {
            if to - e != b.len() {
                assert(b[b.len() - 1 - (to - e)] == v@[e - 1]);
            }
            assert forall|m: int| b.len() - (to - e) <= m < b.len() implies #[trigger] white_space()(
                b[m],
            ) by {
                assert(b[m] == v@[from + m]);
            }
        }
        lemma_back_run_unique(b, white_space(), to - e);
        assert(b.take(b.len() - (to - e)) =~= v@.subrange(from as int, e as int));
    }
    e
}

fn push_range(out: &mut Vec<char>, v: &Vec<char>, from: usize, to: usize)
    requires
        from <= to <= v.len(),
    ensures
        final(out)@ == old(out)@ + v@.subrange(from as int, to as int),
{
    let mut i = from;
    while i < to
        invariant
            from <= i <= to <= v.len(),
            out@ == old(out)@ + v@.subrange(from as int, i as int),
        decreases to - i,
    {
        out.push(v[i]);
        proof {
            assert(v@.subrange(from as int, i + 1) =~= v@.subrange(from as int, i as int).push(
                v@[i as int],
            ));
        }
        i += 1;
    }
}

/// `buffer` as it is saved with trailing white space trimmed: every line
/// loses its trailing white space, and a last newline is kept.
pub fn trim_trailing_whitespace(buffer: &str) -> (r: String)
    ensures
        r@ == trim_for_save(buffer@),
{
    let v = chars_of(buffer);
    let n = v.len();
    let ends_with_newline = n > 0 && v[n - 1] == '\n';
    let end: usize = if ends_with_newline {
        n - 1
    } else {
        n
    };
    let ghost whole = v@.subrange(0, end as int);
    proof {
        if n == 0 {
            assert(whole =~= Seq::<char>::empty());
            assert(first_index(whole, '\n') is None);
            assert(trim_end_spec(whole) =~= Seq::<char>::empty()) by {
                assert(is_back_run(whole, white_space(), 0));
                lemma_back_run_unique(whole, white_space(), 0);
            }
        } else if ends_with_newline {
            assert(whole =~= v@.drop_last());
        } else {
            assert(whole =~= v@);
        }
        assert(n > 0 ==> trimmed_lines(v@) == trim_each_line(whole));
    }
    let mut out: Vec<char> = Vec::new();
    let mut p: usize = 0;
    let mut done = false;
    while !done
        invariant
            p <= end <= n,
            n == v@.len(),
            whole == v@.subrange(0, end as int),
            !done ==> out@ + trim_each_line(v@.subrange(p as int, end as int)) == trim_each_line(
                whole,
            ),
            done ==> out@ == trim_each_line(whole),
        decreases end - p + if done { 0int } else { 1int },
    {
        let ghost w = v@.subrange(p as int, end as int);
        let q = find_char_in(&v, p, end, '\n');
        if q == end {
            let e = white_space_end(&v, p, end);
            push_range(&mut out, &v, p, e);
            done = true;
        } else {
            let e = white_space_end(&v, p, q);
            push_range(&mut out, &v, p, e);
            out.push('\n');
            proof {
                assert(w.take(q - p) =~= v@.subrange(p as int, q as int));
                assert(w.skip(q - p + 1) =~= v@.subrange(q + 1, end as int));
            }
            p = q + 1;
        }
    }
    let ghost joined = out@;
    proof {
        assert(joined == trimmed_lines(v@));
    }
    let m = out.len();
    if ends_with_newline && !(m > 0 && out[m - 1] == '\n') {
        out.push('\n');
    }
    string_from_chars(out.as_slice())
}

} // verus!

verus! {

/// No line of `r` ends with white space: the last character of every
/// non-empty line (before a newline, or at the very end) is not white space.
pub open spec fn no_trailing_white_space(r: Seq<char>) -> bool {
    forall|k: int|
        0 <= k < r.len() && (k + 1 == r.len() || r[k + 1] == '\n') && r[k] != '\n'
            ==> !is_white_space(#[trigger] r[k])
}

/// Every text has a longest run of characters satisfying `p` at its back.
pub proof fn lemma_back_run_exists(s: Seq<char>, p: spec_fn(char) -> bool)
    ensures
        exists|k: int| is_back_run(s, p, k),
    decreases s.len(),
{
    if s.len() == 0 {
        assert(is_back_run(s, p, 0));
    } else if !p(s.last()) {
        assert(is_back_run(s, p, 0));
    } else {
        lemma_back_run_exists(s.drop_last(), p);
        let k = choose|k: int| is_back_run(s.drop_last(), p, k);
        assert forall|j: int| s.len() - (k + 1) <= j < s.len() implies #[trigger] p(s[j]) by {
            if j < s.len() - 1 {
                assert(s[j] == s.drop_last()[j]);
            }
        }
        if k + 1 != s.len() {
            assert(s[s.len() - 1 - (k + 1)] == s.drop_last()[s.drop_last().len() - 1 - k]);
        }
        assert(is_back_run(s, p, k + 1));
    }
}

proof fn lemma_trim_end_clean(s: Seq<char>)
    requires
        forall|j: int| 0 <= j < s.len() ==> s[j] != '\n',
    ensures
        no_trailing_white_space(trim_end_spec(s)),
        forall|j: int| 0 <= j < trim_end_spec(s).len() ==> #[trigger] trim_end_spec(s)[j] != '\n',
        trim_end_spec(s).len() > 0 ==> !is_white_space(trim_end_spec(s).last()),
{
    lemma_back_run_exists(s, white_space());
    let k = back_run(s, white_space());
    assert(is_back_run(s, white_space(), k));
    let t = trim_end_spec(s);
    assert(t == s.take(s.len() - k));
    if t.len() > 0 {
        assert(t.last() == s[s.len() - 1 - k]);
    }
    assert forall|j: int| 0 <= j < t.len() implies #[trigger] t[j] != '\n' by {
        assert(t[j] == s[j]);
    }
}

proof fn lemma_first_newline_exists(s: Seq<char>, j: int)
    requires
        0 <= j < s.len(),
        s[j] == '\n',
    ensures
        first_index(s, '\n') is Some,
    decreases j,
{
    if forall|m: int| 0 <= m < j ==> s[m] != '\n' {
        assert(is_first_index(s, '\n', j));
    } else {
        let m = choose|m: int| 0 <= m < j && s[m] == '\n';
        lemma_first_newline_exists(s, m);
    }
}

proof fn lemma_trim_each_line_clean(s: Seq<char>)
    ensures
        no_trailing_white_space(trim_each_line(s)),
    decreases s.len(),
{
    match first_index(s, '\n') {
        None => {
            assert forall|j: int| 0 <= j < s.len() implies s[j] != '\n' by {
                if s[j] == '\n' {
                    lemma_first_newline_exists(s, j);
                }
            }
            lemma_trim_end_clean(s);
        },
        Some(i) => {
            let i0 = choose|i: int| is_first_index(s, '\n', i);
            assert(is_first_index(s, '\n', i0));
            let head = s.take(i);
            assert forall|j: int| 0 <= j < head.len() implies head[j] != '\n' by {
                assert(head[j] == s[j]);
            }
            lemma_trim_end_clean(head);
            lemma_trim_each_line_clean(s.skip(i + 1));
            let a = trim_end_spec(head);
            let b = trim_each_line(s.skip(i + 1));
            let r = a + seq!['\n'] + b;
            assert(trim_each_line(s) == r);
            assert forall|k: int|
                0 <= k < r.len() && (k + 1 == r.len() || r[k + 1] == '\n') && r[k] != '\n' implies !is_white_space(
                #[trigger] r[k],
            ) by {
                if k < a.len() {
                    assert(r[k] == a[k]);
                    if k + 1 < a.len() {
                        assert(r[k + 1] == a[k + 1]);
                    } else {
                        assert(a.last() == a[k]);
                    }
                } else if k > a.len() {
                    let m = k - a.len() - 1;
                    assert(r[k] == b[m]);
                    if k + 1 < r.len() {
                        assert(r[k + 1] == b[m + 1]);
                    }
                }
            }
        },
    }
}

/// What is saved with trimming has no line ending in white space, and keeps
/// the buffer's last newline.
pub proof fn lemma_trim_for_save_clean(buffer: Seq<char>)
    ensures
        no_trailing_white_space(trim_for_save(buffer)),
        buffer.len() > 0 && buffer.last() == '\n' ==> trim_for_save(buffer).len() > 0
            && trim_for_save(buffer).last() == '\n',
{
    let joined = trimmed_lines(buffer);
    if buffer.len() == 0 {
        assert(no_trailing_white_space(joined));
    } else if buffer.last() == '\n' {
        lemma_trim_each_line_clean(buffer.drop_last());
    } else {
        lemma_trim_each_line_clean(buffer);
    }
    let r = trim_for_save(buffer);
    if r != joined {
        assert(r == joined.push('\n'));
        assert forall|k: int|
            0 <= k < r.len() && (k + 1 == r.len() || r[k + 1] == '\n') && r[k] != '\n' implies !is_white_space(
            #[trigger] r[k],
        ) by {
            assert(r[k] == joined[k]);
            if k + 1 < joined.len() {
                assert(r[k + 1] == joined[k + 1]);
            }
        }
    }
}

proof fn lemma_trim_end_of_clean_line(s: Seq<char>)
    requires
        forall|j: int| 0 <= j < s.len() ==> s[j] != '\n',
        s.len() > 0 ==> !is_white_space(s.last()),
    ensures
        trim_end_spec(s) == s,
{
    assert(is_back_run(s, white_space(), 0));
    lemma_back_run_unique(s, white_space(), 0);
    assert(s.take(s.len() as int) =~= s);
}

proof fn lemma_trim_each_line_of_clean(s: Seq<char>)
    requires
        no_trailing_white_space(s),
    ensures
        trim_each_line(s) == s,
    decreases s.len(),
{
    match first_index(s, '\n') {
        None => {
            assert forall|j: int| 0 <= j < s.len() implies s[j] != '\n' by {
                if s[j] == '\n' {
                    lemma_first_newline_exists(s, j);
                }
            }
            if s.len() > 0 {
                let k = s.len() - 1;
                assert(!is_white_space(s[k]));
            }
            lemma_trim_end_of_clean_line(s);
        },
        Some(i) => {
            let i0 = choose|i: int| is_first_index(s, '\n', i);
            assert(is_first_index(s, '\n', i0));
            let head = s.take(i);
            assert forall|j: int| 0 <= j < head.len() implies head[j] != '\n' by {
                assert(head[j] == s[j]);
            }
            if head.len() > 0 {
                assert(head.last() == s[i - 1]);
                assert(s[i] == '\n');
                assert(!is_white_space(s[i - 1]));
            }
            lemma_trim_end_of_clean_line(head);
            let tail = s.skip(i + 1);
            assert forall|k: int|
                0 <= k < tail.len() && (k + 1 == tail.len() || tail[k + 1] == '\n') && tail[k]
                    != '\n' implies !is_white_space(#[trigger] tail[k]) by {
                assert(tail[k] == s[k + i + 1]);
                if k + 1 < tail.len() {
                    assert(tail[k + 1] == s[k + i + 2]);
                }
                assert(!is_white_space(s[k + i + 1]));
            }
            lemma_trim_each_line_of_clean(tail);
            assert(head + seq!['\n'] + tail =~= s);
        },
    }
}

/// A buffer in which no line ends with white space is saved unchanged when
/// trimming, unless it ends with a blank line (the last line break of a
/// text ends its last line, so such a blank line is not kept).
pub proof fn lemma_clean_buffer_saved_unchanged(buffer: Seq<char>)
    requires
        no_trailing_white_space(buffer),
        !(buffer.len() >= 2 && buffer.last() == '\n' && buffer[buffer.len() - 2] == '\n'),
    ensures
        trim_for_save(buffer) == buffer,
{
    if buffer.len() == 0 {
    } else if buffer.last() == '\n' {
        let d = buffer.drop_last();
        assert forall|k: int|
            0 <= k < d.len() && (k + 1 == d.len() || d[k + 1] == '\n') && d[k] != '\n' implies !is_white_space(
            #[trigger] d[k],
        ) by {
            assert(d[k] == buffer[k]);
            if k + 1 < d.len() {
                assert(d[k + 1] == buffer[k + 1]);
            } else {
                assert(buffer[k + 1] == '\n');
            }
            assert(!is_white_space(buffer[k]));
        }
        lemma_trim_each_line_of_clean(d);
        if d.len() > 0 {
            assert(d.last() == buffer[buffer.len() - 2]);
        }
        assert(d.push('\n') =~= buffer);
    } else {
        lemma_trim_each_line_of_clean(buffer);
    }
}

} // verus!
