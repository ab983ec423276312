//! Character-level text handling: conversions between strings and characters, whitespace,
//! line splitting, decimal numbers.
use vstd::prelude::*;

verus! {

/// Whether a character has the Unicode White_Space property (as `char::is_whitespace` decides)
pub open spec fn is_white_space(c: char) -> bool {
    let u = c as u32;
    (0x09 <= u && u <= 0x0d) || u == 0x20 || u == 0x85 || u == 0xa0 || u == 0x1680 || (0x2000
        <= u && u <= 0x200a) || u == 0x2028 || u == 0x2029 || u == 0x202f || u == 0x205f || u
        == 0x3000
}

/// `char::is_whitespace`
pub fn is_whitespace(c: char) -> (b: bool)
    ensures
        b == is_white_space(c),
{
    let u = c as u32;
    (0x09 <= u && u <= 0x0d) || u == 0x20 || u == 0x85 || u == 0xa0 || u == 0x1680 || (0x2000
        <= u && u <= 0x200a) || u == 0x2028 || u == 0x2029 || u == 0x202f || u == 0x205f || u
        == 0x3000
}

/// `String::push`: appends one character
#[verifier::external_body]
pub(crate) fn string_push(s: &mut String, c: char)
    ensures
        final(s)@ == old(s)@.push(c),
{
    s.push(c)
}

/// The characters of a string, in order
pub fn chars_of(s: &str) -> (v: Vec<char>)
    ensures
        v@ == s@,
{
    broadcast use vstd::string::group_string_axioms;
    let mut v: Vec<char> = Vec::new();
    let mut it = s.chars();
    loop
        invariant
            v@ + vstd::std_specs::iter::IteratorSpec::remaining(&it) == s@,
            vstd::std_specs::iter::IteratorSpec::obeys_prophetic_iter_laws(&it),
            vstd::std_specs::iter::IteratorSpec::decrease(&it) is Some,
        ensures
            v@ == s@,
        decreases vstd::std_specs::iter::IteratorSpec::decrease(&it)->0,
    {
        match it.next() {
            Some(c) => {
                v.push(c);
                assert(v@ + vstd::std_specs::iter::IteratorSpec::remaining(&it) =~= s@);
            },
            None => {
                assert(v@ =~= s@);
                break;
            },
        }
    }
    v
}

/// A string holding the characters of `v[from..to]`
pub fn string_of_range(v: &Vec<char>, from: usize, to: usize) -> (s: String)
    requires
        from <= to <= v@.len(),
    ensures
        s@ == v@.subrange(from as int, to as int),
{
    let mut s = String::new();
    let mut i = from;
    while i < to
        invariant
            from <= i <= to <= v@.len(),
            s@ == v@.subrange(from as int, i as int),
        decreases to - i,
    {
        string_push(&mut s, v[i]);
        assert(s@ =~= v@.subrange(from as int, i + 1));
        i += 1;
    }
    s
}

/// A string holding the characters of `v`
pub fn string_of_chars(v: &Vec<char>) -> (s: String)
    ensures
        s@ == v@,
{
    let s = string_of_range(v, 0, v.len());
    assert(v@.subrange(0, v@.len() as int) =~= v@);
    s
}

/// Appends the characters of `t` to `s`
pub fn append_str(s: &mut String, t: &str)
    ensures
        final(s)@ == old(s)@ + t@,
{
    let v = chars_of(t);
    let mut i: usize = 0;
    while i < v.len()
        invariant
            i <= v@.len(),
            v@ == t@,
            s@ == old(s)@ + v@.take(i as int),
        decreases v@.len() - i,
    {
        string_push(s, v[i]);
        assert(v@.take(i + 1) =~= v@.take(i as int).push(v@[i as int]));
        i += 1;
    }
    assert(v@.take(v@.len() as int) =~= v@);
}

/// Whether two strings hold the same characters
pub fn str_eq(a: &str, b: &str) -> (r: bool)
    ensures
        r == (a@ == b@),
{
    let x = chars_of(a);
    let y = chars_of(b);
    if x.len() != y.len() {
        return false;
    }
    let mut i: usize = 0;
    while i < x.len()
        invariant
            x@ == a@,
            y@ == b@,
            x@.len() == y@.len(),
            i <= x@.len(),
            forall|j: int| 0 <= j < i ==> x@[j] == y@[j],
        decreases x@.len() - i,
    {
        if x[i] != y[i] {
            return false;
        }
        i += 1;
    }
    assert(x@ =~= y@);
    true
}

/// The first position at or after `from` that holds `c`
pub open spec fn first_from(s: Seq<char>, from: int, c: char) -> Option<int>
    decreases s.len() - from,
{
    if from < 0 || from >= s.len() {
        None
    } else if s[from] == c {
        Some(from)
    } else {
        first_from(s, from + 1, c)
    }
}

pub proof fn lemma_first_from(s: Seq<char>, from: int, c: char)
    requires
        0 <= from,
    ensures
        match first_from(s, from, c) {
            Some(i) => from <= i < s.len() && s[i] == c && forall|j: int|
                from <= j < i ==> s[j] != c,
            None => forall|j: int| from <= j < s.len() ==> s[j] != c,
        },
    decreases s.len() - from,
{
    if from < s.len() && s[from] != c {
        lemma_first_from(s, from + 1, c);
    }
}

pub proof fn lemma_first_from_skip(s: Seq<char>, from: int, i: int, c: char)
    requires
        0 <= from <= s.len(),
        0 <= i,
    ensures
        first_from(s.skip(from), i, c) == (match first_from(s, from + i, c) {
            Some(x) => Some(x - from),
            None => None,
        }),
    decreases s.len() - from - i,
{
    if from + i < s.len() {
        assert(s.skip(from)[i] == s[from + i]);
        if s[from + i] != c {
            lemma_first_from_skip(s, from, i + 1, c);
        }
    }
}

/// Finds the first `c` in `v` at or after `from`
pub fn find_from(v: &Vec<char>, from: usize, c: char) -> (r: Option<usize>)
    ensures
        r matches Some(i) ==> first_from(v@, from as int, c) == Some(i as int),
        r is None ==> first_from(v@, from as int, c) is None,
{
    let mut i = from;
    proof {
        lemma_first_from(v@, from as int, c);
    }
    while i < v.len()
        invariant
            from <= i,
            forall|j: int| from <= j < i ==> v@[j] != c,
        decreases v@.len() - i,
    {
        if v[i] == c {
            proof {
                lemma_first_from(v@, from as int, c);
            }
            return Some(i);
        }
        i += 1;
    }
    proof {
        lemma_first_from(v@, from as int, c);
    }
    None
}

/// The character of a decimal digit
pub open spec fn digit_char(d: nat) -> char {
    if d == 0 {
        '0'
    } else if d == 1 {
        '1'
    } else if d == 2 {
        '2'
    } else if d == 3 {
        '3'
    } else if d == 4 {
        '4'
    } else if d == 5 {
        '5'
    } else if d == 6 {
        '6'
    } else if d == 7 {
        '7'
    } else if d == 8 {
        '8'
    } else {
        '9'
    }
}

/// The decimal digits of a natural number, most significant first, with no leading zero
pub open spec fn decimal(n: nat) -> Seq<char>
    decreases n,
{
    if n < 10 {
        seq![digit_char(n)]
    } else {
        decimal(n / 10).push(digit_char(n % 10))
    }
}

/// The decimal text of an integer, with a leading '-' for a negative one
pub open spec fn signed_decimal(n: int) -> Seq<char> {
    if n < 0 {
        seq!['-'] + decimal((-n) as nat)
    } else {
        decimal(n as nat)
    }
}

fn digit(d: u128) -> (c: char)
    requires
        d < 10,
    ensures
        c == digit_char(d as nat),
{
    if d == 0 {
        '0'
    } else if d == 1 {
        '1'
    } else if d == 2 {
        '2'
    } else if d == 3 {
        '3'
    } else if d == 4 {
        '4'
    } else if d == 5 {
        '5'
    } else if d == 6 {
        '6'
    } else if d == 7 {
        '7'
    } else if d == 8 {
        '8'
    } else {
        '9'
    }
}

/// Appends the decimal digits of `n` to `s`
pub fn push_decimal(s: &mut String, n: u128)
    ensures
        final(s)@ == old(s)@ + decimal(n as nat),
    decreases n,
{
    if n >= 10 {
        push_decimal(s, n / 10);
        string_push(s, digit(n % 10));
        assert(decimal(n as nat) == decimal((n / 10) as nat).push(digit_char((n % 10) as nat)));
        assert(final(s)@ =~= old(s)@ + decimal(n as nat));
    } else {
        string_push(s, digit(n));
        assert(decimal(n as nat) =~= seq![digit_char(n as nat)]);
        assert(final(s)@ =~= old(s)@ + decimal(n as nat));
    }
}

/// The decimal text of an unsigned integer, as `to_string` gives it
pub fn unsigned_to_string(n: u128) -> (s: String)
    ensures
        s@ == decimal(n as nat),
{
    let mut s = String::new();
    push_decimal(&mut s, n);
    assert(s@ =~= decimal(n as nat));
    s
}

/// The decimal text of a signed integer, as `to_string` gives it
pub fn signed_to_string(n: i128) -> (s: String)
    ensures
        s@ == signed_decimal(n as int),
{
    let mut s = String::new();
    if n < 0 {
        string_push(&mut s, '-');
        let m: u128 = ((-(n + 1)) as u128) + 1;
        push_decimal(&mut s, m);
        assert(s@ =~= signed_decimal(n as int));
    } else {
        push_decimal(&mut s, n as u128);
        assert(s@ =~= signed_decimal(n as int));
    }
    s
}

/// Whether every character is an ASCII decimal digit
pub open spec fn all_digits(s: Seq<char>) -> bool {
    forall|i: int| 0 <= i < s.len() ==> '0' <= #[trigger] s[i] <= '9'
}

/// The value of a string of decimal digits
pub open spec fn digits_value(s: Seq<char>) -> nat
    decreases s.len(),
{
    if s.len() == 0 {
        0
    } else {
        digits_value(s.drop_last()) * 10 + ((s.last() as u32) - ('0' as u32)) as nat
    }
}

/// What `str::parse::<usize>` gives: an optional '+', then one or more decimal digits whose
/// value fits in a `usize`
pub open spec fn parse_usize_spec(s: Seq<char>) -> Option<usize> {
    let d = if s.len() > 0 && s[0] == '+' {
        s.drop_first()
    } else {
        s
    };
    if d.len() > 0 && all_digits(d) && digits_value(d) <= usize::MAX {
        Some(digits_value(d) as usize)
    } else {
        None
    }
}

proof fn lemma_digits_value_grows(s: Seq<char>, i: int)
    requires
        0 <= i <= s.len(),
        all_digits(s),
    ensures
        digits_value(s.take(i)) <= digits_value(s),
    decreases s.len() - i,
{
    if i < s.len() {
        lemma_digits_value_grows(s, i + 1);
        assert(s.take(i + 1).drop_last() =~= s.take(i));
        assert(digits_value(s.take(i + 1)) == digits_value(s.take(i)) * 10 + ((s[i] as u32) - (
        '0' as u32)) as nat);
    } else {
        assert(s.take(i) =~= s);
    }
}

/// `str::parse::<usize>` on the characters `v[from..to]`
pub fn parse_usize(v: &Vec<char>, from: usize, to: usize) -> (r: Option<usize>)
    requires
        from <= to <= v@.len(),
    ensures
        r == parse_usize_spec(v@.subrange(from as int, to as int)),
{
    let ghost s = v@.subrange(from as int, to as int);
    let mut start = from;
    if from < to && v[from] == '+' {
        start = from + 1;
    }
    let ghost d = v@.subrange(start as int, to as int);
    assert(d =~= (if s.len() > 0 && s[0] == '+' {
        s.drop_first()
    } else {
        s
    }));
    if start == to {
        return None;
    }
    let mut acc: usize = 0;
    let mut i = start;
    while i < to
        invariant
            start <= i <= to <= v@.len(),
            d == v@.subrange(start as int, to as int),
            s == v@.subrange(from as int, to as int),
            d == (if s.len() > 0 && s[0] == '+' {
                s.drop_first()
            } else {
                s
            }),
            d.len() > 0,
            all_digits(d.take(i - start)),
            acc as nat == digits_value(d.take(i - start)),
        decreases to - i,
    {
        let c = v[i];
        let ghost k = i - start;
        assert(d[k] == c);
        if !('0' <= c && c <= '9') {
            assert(!all_digits(d));
            return None;
        }
        assert(d.take(k + 1).drop_last() =~= d.take(k));
        assert(all_digits(d.take(k + 1)));
        let dv: usize = ((c as u32) - ('0' as u32)) as usize;
        assert(digits_value(d.take(k + 1)) == digits_value(d.take(k)) * 10 + dv);
        if acc > (usize::MAX - dv) / 10 {
            proof {
                assert(acc * 10 + dv > usize::MAX) by (nonlinear_arith)
                    requires
                        acc > (usize::MAX - dv) / 10,
                        dv <= 9,
                ;
                if all_digits(d) {
                    lemma_digits_value_grows(d, k + 1);
                }
            }
            return None;
        }
        assert(acc * 10 + dv <= usize::MAX) by (nonlinear_arith)
            requires
                acc <= (usize::MAX - dv) / 10,
                dv <= 9,
        ;
        acc = acc * 10 + dv;
        i += 1;
    }
    assert(d.take(i - start) =~= d);
    Some(acc)
}

} // verus!

verus! {

/// The number of white-space characters that `s` starts with
pub open spec fn ws_prefix_len(s: Seq<char>) -> nat
    decreases s.len(),
{
    if s.len() > 0 && is_white_space(s[0]) {
        1 + ws_prefix_len(s.drop_first())
    } else {
        0
    }
}

/// The number of white-space characters that `s` ends with
pub open spec fn ws_suffix_len(s: Seq<char>) -> nat
    decreases s.len(),
{
    if s.len() > 0 && is_white_space(s.last()) {
        1 + ws_suffix_len(s.drop_last())
    } else {
        0
    }
}

/// `s` without its leading and trailing white space (as `str::trim` gives it)
pub open spec fn trimmed(s: Seq<char>) -> Seq<char> {
    let t = s.skip(ws_prefix_len(s) as int);
    t.take(t.len() - ws_suffix_len(t))
}

proof fn lemma_ws_prefix(s: Seq<char>, i: int)
    requires
        0 <= i <= s.len(),
        forall|j: int| 0 <= j < i ==> is_white_space(s[j]),
        i == s.len() || !is_white_space(s[i]),
    ensures
        ws_prefix_len(s) == i,
    decreases i,
{
    if i > 0 {
        lemma_ws_prefix(s.drop_first(), i - 1);
    }
}

proof fn lemma_ws_suffix(s: Seq<char>, k: int)
    requires
        0 <= k <= s.len(),
        forall|j: int| s.len() - k <= j < s.len() ==> is_white_space(s[j]),
        k == s.len() || !is_white_space(s[s.len() - k - 1]),
    ensures
        ws_suffix_len(s) == k,
    decreases k,
{
    if k > 0 {
        lemma_ws_suffix(s.drop_last(), k - 1);
    }
}

/// The bounds of the characters of `v` without leading and trailing white space
pub fn trim_bounds(v: &Vec<char>) -> (r: (usize, usize))
    ensures
        r.0 <= r.1 <= v@.len(),
        v@.subrange(r.0 as int, r.1 as int) == trimmed(v@),
{
    let mut a: usize = 0;
    while a < v.len() && is_whitespace(v[a])
        invariant
            a <= v@.len(),
            forall|j: int| 0 <= j < a ==> is_white_space(v@[j]),
        decreases v@.len() - a,
    {
        a += 1;
    }
    proof {
        lemma_ws_prefix(v@, a as int);
    }
    let mut b: usize = v.len();
    while b > a && is_whitespace(v[b - 1])
        invariant
            a <= b <= v@.len(),
            forall|j: int| b <= j < v@.len() ==> is_white_space(v@[j]),
        decreases b,
    {
        b -= 1;
    }
    let ghost t = v@.skip(a as int);
    proof {
        assert forall|j: int| t.len() - (v@.len() - b) <= j < t.len() implies is_white_space(t[j]) by {
            assert(t[j] == v@[a + j]);
        }
        if b > a {
            assert(t[t.len() - (v@.len() - b) - 1] == v@[b - 1]);
        }
        lemma_ws_suffix(t, (v@.len() - b) as int);
    }
    assert(v@.subrange(a as int, b as int) =~= t.take(t.len() - ws_suffix_len(t)));
    (a, b)
}

/// A line without the carriage return that ends it, if one does
pub open spec fn strip_cr(l: Seq<char>) -> Seq<char> {
    if l.len() > 0 && l.last() == '\r' {
        l.drop_last()
    } else {
        l
    }
}

/// The lines of a text (as `str::lines` gives them): split at each newline, with a carriage
/// return before a newline dropped; a final newline does not start another line
pub open spec fn lines_of(s: Seq<char>) -> Seq<Seq<char>>
    decreases s.len(),
{
    if s.len() == 0 {
        Seq::empty()
    } else {
        match first_from(s, 0, '\n') {
            None => seq![s],
            Some(i) => if 0 <= i < s.len() {
                seq![strip_cr(s.take(i))] + lines_of(s.skip(i + 1))
            } else {
                Seq::empty()
            },
        }
    }
}

/// The bounds `b` of `l` within `v`
pub open spec fn spans(v: Seq<char>, b: (usize, usize), l: Seq<char>) -> bool {
    b.0 <= b.1 <= v.len() && v.subrange(b.0 as int, b.1 as int) == l
}

/// The bounds of the lines of a text, each without its line ending
pub fn line_bounds(v: &Vec<char>) -> (r: Vec<(usize, usize)>)
    ensures
        r@.len() == lines_of(v@).len(),
        forall|k: int| 0 <= k < r@.len() ==> spans(v@, #[trigger] r@[k], lines_of(v@)[k]),
{
    let mut r: Vec<(usize, usize)> = Vec::new();
    let mut p: usize = 0;
    assert(v@.skip(0) =~= v@);
    while p < v.len()
        invariant
            p <= v@.len(),
            r@.len() + lines_of(v@.skip(p as int)).len() == lines_of(v@).len(),
            forall|k: int| 0 <= k < r@.len() ==> spans(v@, #[trigger] r@[k], lines_of(v@)[k]),
            forall|k: int|
                0 <= k < lines_of(v@.skip(p as int)).len() ==> lines_of(v@)[r@.len() + k]
                    == #[trigger] lines_of(v@.skip(p as int))[k],
        decreases v@.len() - p,
    {
        let ghost t = v@.skip(p as int);
        proof {
            lemma_first_from_skip(v@, p as int, 0, '\n');
            lemma_first_from(v@, p as int, '\n');
        }
        let ghost old_r = r@;
        match find_from(v, p, '\n') {
            None => {
                assert(lines_of(t) =~= seq![t]);
                assert(lines_of(v@)[old_r.len() + 0int] == lines_of(t)[0]);
                assert(v@.subrange(p as int, v@.len() as int) =~= t);
                r.push((p, v.len()));
                assert(spans(v@, r@[old_r.len() as int], lines_of(v@)[old_r.len() as int]));
                assert forall|k: int| 0 <= k < r@.len() implies spans(
                    v@,
                    #[trigger] r@[k],
                    lines_of(v@)[k],
                ) by {
                    if k < old_r.len() {
                        assert(r@[k] == old_r[k]);
                    }
                }
                p = v.len();
                assert(v@.skip(p as int) =~= Seq::<char>::empty());
            },
            Some(i) => {
                let ghost ir = i - p;
                assert(lines_of(t) == seq![strip_cr(t.take(ir))] + lines_of(t.skip(ir + 1)));
                assert(t.skip(ir + 1) =~= v@.skip(i + 1));
                let end = if i > p && v[i - 1] == '\r' {
                    i - 1
                } else {
                    i
                };
                assert(v@.subrange(p as int, end as int) =~= strip_cr(t.take(ir)));
                assert(lines_of(v@)[old_r.len() + 0int] == lines_of(t)[0]);
                assert(lines_of(t)[0] == strip_cr(t.take(ir)));
                r.push((p, end));
                assert(spans(v@, r@[old_r.len() as int], lines_of(v@)[old_r.len() as int]));
                assert forall|k: int| 0 <= k < r@.len() implies spans(
                    v@,
                    #[trigger] r@[k],
                    lines_of(v@)[k],
                ) by {
                    if k < old_r.len() {
                        assert(r@[k] == old_r[k]);
                    }
                }
                assert forall|k: int|
                    0 <= k < lines_of(v@.skip(i + 1)).len() implies lines_of(v@)[r@.len() + k]
                    == #[trigger] lines_of(v@.skip(i + 1))[k] by {
                    assert(lines_of(t)[k + 1] == lines_of(v@.skip(i + 1))[k]);
                }
                p = i + 1;
            },
        }
    }
    assert(lines_of(v@.skip(p as int)) =~= Seq::<Seq<char>>::empty());
    r
}

/// Spaces before a text up to a width (as `{:>w}` pads it)
pub open spec fn pad_left(s: Seq<char>, w: nat) -> Seq<char> {
    if s.len() < w {
        Seq::new((w - s.len()) as nat, |i: int| ' ') + s
    } else {
        s
    }
}

/// Spaces after a text up to a width (as `{:w}` pads a string)
pub open spec fn pad_right(s: Seq<char>, w: nat) -> Seq<char> {
    if s.len() < w {
        s + Seq::new((w - s.len()) as nat, |i: int| ' ')
    } else {
        s
    }
}

/// Appends `n` spaces
pub fn push_spaces(s: &mut String, n: usize)
    ensures
        final(s)@ == old(s)@ + Seq::new(n as nat, |i: int| ' '),
{
    let mut i: usize = 0;
    while i < n
        invariant
            i <= n,
            s@ == old(s)@ + Seq::new(i as nat, |k: int| ' '),
        decreases n - i,
    {
        string_push(s, ' ');
        assert(old(s)@ + Seq::new((i + 1) as nat, |k: int| ' ') =~= (old(s)@ + Seq::new(
            i as nat,
            |k: int| ' ',
        )).push(' '));
        i += 1;
    }
}

} // verus!
