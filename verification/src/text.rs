//! Text operations on `&str` and `String`, stated over sequences of characters.
pub mod laws;

use vstd::prelude::*;
use vstd::string::{StrSliceExecFns, StringExecFns};

verus! {

/// `String::push` appends the given character to the end of the string.
pub assume_specification[ std::string::String::push ](s: &mut std::string::String, c: char)
    ensures
        final(s)@ == old(s)@.push(c),
;

/// The views of a sequence of strings.
pub open spec fn texts(strings: Seq<String>) -> Seq<Seq<char>> {
    Seq::new(strings.len(), |i: int| strings[i]@)
}

/// The view of an optional string.
pub open spec fn opt_text(s: Option<String>) -> Option<Seq<char>> {
    match s {
        Some(t) => Some(t@),
        None => None,
    }
}

/// The view of an optional string slice.
pub open spec fn opt_str(s: Option<&str>) -> Option<Seq<char>> {
    match s {
        Some(t) => Some(t@),
        None => None,
    }
}

/// The characters with the Unicode `White_Space` property.
pub open spec fn is_space(c: char) -> bool {
    let n = c as u32;
    ||| 0x9 <= n <= 0xd
    ||| n == 0x20
    ||| n == 0x85
    ||| n == 0xa0
    ||| n == 0x1680
    ||| 0x2000 <= n <= 0x200a
    ||| n == 0x2028
    ||| n == 0x2029
    ||| n == 0x202f
    ||| n == 0x205f
    ||| n == 0x3000
}

/// The first position at or after `i` that holds no white space, or the length.
pub open spec fn first_solid(s: Seq<char>, i: int) -> int
    decreases s.len() - i,
{
    if i >= s.len() {
        s.len() as int
    } else if is_space(s[i]) {
        first_solid(s, i + 1)
    } else {
        i
    }
}

/// The end of what is left of `s[start..end]` when trailing white space is dropped.
pub open spec fn solid_end(s: Seq<char>, start: int, end: int) -> int
    decreases end - start,
{
    if end <= start {
        start
    } else if is_space(s[end - 1]) {
        solid_end(s, start, end - 1)
    } else {
        end
    }
}

/// The text without leading and trailing white space.
pub open spec fn trimmed(s: Seq<char>) -> Seq<char> {
    let start = first_solid(s, 0);
    s.subrange(start, solid_end(s, start, s.len() as int))
}

/// The first position at or after `i` that holds `c`, or the length.
pub open spec fn first_index(s: Seq<char>, c: char, i: int) -> int
    decreases s.len() - i,
{
    if i >= s.len() {
        s.len() as int
    } else if s[i] == c {
        i
    } else {
        first_index(s, c, i + 1)
    }
}

/// The last position before `end` that holds `c`, or -1.
pub open spec fn last_index(s: Seq<char>, c: char, end: int) -> int
    decreases end,
{
    if end <= 0 {
        -1
    } else if s[end - 1] == c {
        end - 1
    } else {
        last_index(s, c, end - 1)
    }
}

/// The first position at or after `i` that holds something other than `c`, or the length.
pub open spec fn first_other(s: Seq<char>, c: char, i: int) -> int
    decreases s.len() - i,
{
    if i >= s.len() {
        s.len() as int
    } else if s[i] == c {
        first_other(s, c, i + 1)
    } else {
        i
    }
}

/// The end of what is left of `s[start..end]` when trailing occurrences of `c` are dropped.
pub open spec fn other_end(s: Seq<char>, c: char, start: int, end: int) -> int
    decreases end - start,
{
    if end <= start {
        start
    } else if s[end - 1] == c {
        other_end(s, c, start, end - 1)
    } else {
        end
    }
}

/// The text without leading occurrences of `c`.
pub open spec fn without_leading(s: Seq<char>, c: char) -> Seq<char> {
    s.subrange(first_other(s, c, 0), s.len() as int)
}

/// The text without leading and trailing occurrences of `c`.
pub open spec fn without_around(s: Seq<char>, c: char) -> Seq<char> {
    let start = first_other(s, c, 0);
    s.subrange(start, other_end(s, c, start, s.len() as int))
}

/// The parts of `s[start..]` between occurrences of `sep`.
pub open spec fn split_from(s: Seq<char>, sep: char, start: int) -> Seq<Seq<char>>
    decreases s.len() - start,
    when 0 <= start <= s.len()
    via split_from_decreases
{
    let j = first_index(s, sep, start);
    if j >= s.len() {
        seq![s.subrange(start, s.len() as int)]
    } else {
        seq![s.subrange(start, j)] + split_from(s, sep, j + 1)
    }
}

#[via_fn]
proof fn split_from_decreases(s: Seq<char>, sep: char, start: int) {
    lemma_first_index(s, sep, start);
}

/// The parts of `s` between occurrences of `sep`; one part more than there are occurrences.
pub open spec fn split_parts(s: Seq<char>, sep: char) -> Seq<Seq<char>> {
    split_from(s, sep, 0)
}

/// The parts joined by `sep`.
pub open spec fn joined(parts: Seq<Seq<char>>, sep: Seq<char>) -> Seq<char>
    decreases parts.len(),
{
    if parts.len() == 0 {
        Seq::empty()
    } else if parts.len() == 1 {
        parts[0]
    } else {
        joined(parts.drop_last(), sep) + sep + parts.last()
    }
}

/// The character with `A..=Z` replaced by `a..=z`.
pub open spec fn lower_char(c: char) -> char {
    if 'A' <= c <= 'Z' {
        ((c as u32 + 32) as u32) as char
    } else {
        c
    }
}

/// The text with `A..=Z` replaced by `a..=z`.
pub open spec fn ascii_lower(s: Seq<char>) -> Seq<char> {
    Seq::new(s.len(), |i: int| lower_char(s[i]))
}

/// The text with each `from` replaced by `to`.
pub open spec fn replaced(s: Seq<char>, from: char, to: char) -> Seq<char> {
    Seq::new(
        s.len(),
        |i: int|
            if s[i] == from {
                to
            } else {
                s[i]
            },
    )
}

/// Whether `part` stands at position `at` of `s`.
pub open spec fn stands_at(s: Seq<char>, part: Seq<char>, at: int) -> bool {
    &&& 0 <= at <= s.len() - part.len()
    &&& s.subrange(at, at + part.len()) == part
}

pub open spec fn starts_with(s: Seq<char>, prefix: Seq<char>) -> bool {
    stands_at(s, prefix, 0)
}

pub open spec fn ends_with(s: Seq<char>, suffix: Seq<char>) -> bool {
    stands_at(s, suffix, s.len() - suffix.len())
}

/// The text behind `prefix`, where `s` starts with it.
pub open spec fn after_prefix(s: Seq<char>, prefix: Seq<char>) -> Option<Seq<char>> {
    if starts_with(s, prefix) {
        Some(s.subrange(prefix.len() as int, s.len() as int))
    } else {
        None
    }
}

/// The text behind `prefix` where `s` starts with it, else `s`.
pub open spec fn less_prefix(s: Seq<char>, prefix: Seq<char>) -> Seq<char> {
    match after_prefix(s, prefix) {
        Some(rest) => rest,
        None => s,
    }
}

/// What stands before and behind the first `c` of `s`.
pub open spec fn cut_once(s: Seq<char>, c: char) -> Option<(Seq<char>, Seq<char>)> {
    let j = first_index(s, c, 0);
    if j < s.len() {
        Some((s.subrange(0, j), s.subrange(j + 1, s.len() as int)))
    } else {
        None
    }
}

/// What stands before and behind the last `c` of `s`.
pub open spec fn cut_last(s: Seq<char>, c: char) -> Option<(Seq<char>, Seq<char>)> {
    let j = last_index(s, c, s.len() as int);
    if j >= 0 {
        Some((s.subrange(0, j), s.subrange(j + 1, s.len() as int)))
    } else {
        None
    }
}

/// Whether `a[i..]` comes before `b[i..]` in the order of code points.
pub open spec fn before_from(a: Seq<char>, b: Seq<char>, i: int) -> bool
    decreases b.len() - i,
{
    if i >= b.len() {
        false
    } else if i >= a.len() {
        true
    } else if a[i] == b[i] {
        before_from(a, b, i + 1)
    } else {
        a[i] < b[i]
    }
}

/// Whether `a` comes before `b` in the order of code points.
pub open spec fn text_before(a: Seq<char>, b: Seq<char>) -> bool {
    before_from(a, b, 0)
}

pub proof fn lemma_first_index(s: Seq<char>, c: char, i: int)
    requires
        0 <= i <= s.len(),
    ensures
        i <= first_index(s, c, i) <= s.len(),
        first_index(s, c, i) < s.len() ==> s[first_index(s, c, i)] == c,
        forall|k: int| i <= k < first_index(s, c, i) ==> s[k] != c,
    decreases s.len() - i,
{
    if i < s.len() && s[i] != c {
        lemma_first_index(s, c, i + 1);
    }
}

pub proof fn lemma_last_index(s: Seq<char>, c: char, end: int)
    requires
        0 <= end <= s.len(),
    ensures
        -1 <= last_index(s, c, end) < end || end == 0 && last_index(s, c, end) == -1,
        last_index(s, c, end) >= 0 ==> s[last_index(s, c, end)] == c,
        forall|k: int| last_index(s, c, end) < k < end ==> s[k] != c,
    decreases end,
{
    if end > 0 && s[end - 1] != c {
        lemma_last_index(s, c, end - 1);
    }
}

pub proof fn lemma_first_other(s: Seq<char>, c: char, i: int)
    requires
        0 <= i <= s.len(),
    ensures
        i <= first_other(s, c, i) <= s.len(),
        first_other(s, c, i) < s.len() ==> s[first_other(s, c, i)] != c,
        forall|k: int| i <= k < first_other(s, c, i) ==> s[k] == c,
    decreases s.len() - i,
{
    if i < s.len() && s[i] == c {
        lemma_first_other(s, c, i + 1);
    }
}

/// Two texts have a first position at which they differ, unless one starts with the other.
proof fn lemma_before_witness(a: Seq<char>, b: Seq<char>, i: int)
    requires
        0 <= i <= a.len(),
    ensures
        before_from(a, b, i) ==> exists|k: int| #[trigger] differ_at(a, b, i, k),
        forall|k: int| #[trigger] differ_at(a, b, i, k) ==> before_from(a, b, i),
    decreases b.len() - i,
{
    if i < b.len() {
        if i < a.len() {
            lemma_before_witness(a, b, i + 1);
        }
        if before_from(a, b, i) {
            if i < a.len() && a[i] == b[i] {
                let k = choose|k: int| #[trigger] differ_at(a, b, i + 1, k);
                assert(differ_at(a, b, i, k));
            } else {
                assert(differ_at(a, b, i, i));
            }
        }
        assert forall|k: int| #[trigger] differ_at(a, b, i, k) implies before_from(a, b, i) by {
            if k > i {
                assert(a[i] == b[i]);
                assert(differ_at(a, b, i + 1, k));
            }
        }
    }
}

/// `a` and `b` agree on `i..k`, and at `k` either `a` has ended or it holds the lesser character.
spec fn differ_at(a: Seq<char>, b: Seq<char>, i: int, k: int) -> bool {
    &&& i <= k < b.len()
    &&& k <= a.len()
    &&& forall|m: int| i <= m < k ==> a[m] == b[m]
    &&& k < a.len() ==> a[k] < b[k]
}

/// No text comes before itself.
pub proof fn lemma_before_irreflexive(a: Seq<char>)
    ensures
        !text_before(a, a),
{
    lemma_before_witness(a, a, 0);
}

/// The order of texts is transitive.
pub proof fn lemma_before_transitive(a: Seq<char>, b: Seq<char>, c: Seq<char>)
    requires
        text_before(a, b),
        text_before(b, c),
    ensures
        text_before(a, c),
{
    lemma_before_witness(a, b, 0);
    lemma_before_witness(b, c, 0);
    lemma_before_witness(a, c, 0);
    let j = choose|k: int| #[trigger] differ_at(a, b, 0, k);
    let k = choose|k: int| #[trigger] differ_at(b, c, 0, k);
    if j < k {
        assert(differ_at(a, c, 0, j));
    } else {
        assert(differ_at(a, c, 0, k));
    }
}

/// Of two different texts one comes before the other.
pub proof fn lemma_before_total(a: Seq<char>, b: Seq<char>)
    requires
        a != b,
    ensures
        text_before(a, b) || text_before(b, a),
{
    lemma_before_total_from(a, b, 0);
}

proof fn lemma_before_total_from(a: Seq<char>, b: Seq<char>, i: int)
    requires
        a != b,
        0 <= i <= a.len(),
        i <= b.len(),
        forall|m: int| 0 <= m < i ==> a[m] == b[m],
    ensures
        before_from(a, b, i) || before_from(b, a, i),
    decreases b.len() - i,
{
    if i < a.len() && i < b.len() {
        if a[i] == b[i] {
            lemma_before_total_from(a, b, i + 1);
        }
    } else if i == a.len() && i == b.len() {
        assert(a =~= b);
    }
}

/// The characters of a string.
pub fn to_chars(s: &str) -> (chars: Vec<char>)
    ensures
        chars@ == s@,
{
    let mut out: Vec<char> = Vec::new();
    for c in iter: s.chars()
        invariant
            out@ == iter.seq().subrange(0, iter.index() as int),
            iter.seq() == s@,
    {
        out.push(c);
        assert(iter.seq().subrange(0, iter.index() + 1) =~= iter.seq().subrange(0, iter.index() as int).push(c));
    }
    proof {
        assert(s@.subrange(0, s@.len() as int) =~= s@);
    }
    out
}

/// The string of `chars[from..to]`.
pub fn from_chars(chars: &Vec<char>, from: usize, to: usize) -> (s: String)
    requires
        from <= to <= chars@.len(),
    ensures
        s@ == chars@.subrange(from as int, to as int),
{
    let mut out = String::new();
    let mut i: usize = from;
    while i < to
        invariant
            from <= i <= to <= chars@.len(),
            out@ == chars@.subrange(from as int, i as int),
        decreases to - i,
    {
        out.push(chars[i]);
        i += 1;
        assert(chars@.subrange(from as int, i as int) =~= chars@.subrange(from as int, i - 1).push(
            chars@[i - 1],
        ));
    }
    out
}

/// Whether two texts are the same.
pub fn same(a: &str, b: &str) -> (r: bool)
    ensures
        r == (a@ == b@),
{
    let x = to_chars(a);
    let y = to_chars(b);
    if x.len() != y.len() {
        return false;
    }
    let mut i: usize = 0;
    while i < x.len()
        invariant
            x@ == a@,
            y@ == b@,
            x@.len() == y@.len(),
            i <= x@.len(),
            forall|k: int| 0 <= k < i ==> x@[k] == y@[k],
        decreases x@.len() - i,
    {
        if x[i] != y[i] {
            return false;
        }
        i += 1;
    }
    assert(a@ =~= b@);
    true
}

/// Whether two optional texts are the same.
pub fn same_opt(a: Option<&str>, b: Option<&str>) -> (r: bool)
    ensures
        r == (opt_str(a) == opt_str(b)),
{
    match (a, b) {
        (Some(x), Some(y)) => same(x, y),
        (None, None) => true,
        _ => false,
    }
}

/// Whether `a` comes before `b` in the order of code points.
pub fn comes_before(a: &str, b: &str) -> (r: bool)
    ensures
        r == text_before(a@, b@),
{
    let x = to_chars(a);
    let y = to_chars(b);
    let mut i: usize = 0;
    while i < x.len() && i < y.len() && x[i] == y[i]
        invariant
            x@ == a@,
            y@ == b@,
            i <= x@.len(),
            i <= y@.len(),
            text_before(a@, b@) == before_from(a@, b@, i as int),
        decreases x@.len() - i,
    {
        i += 1;
    }
    if i >= y.len() {
        false
    } else if i >= x.len() {
        true
    } else {
        x[i] < y[i]
    }
}

/// A string with the given text.
pub fn owned(s: &str) -> (r: String)
    ensures
        r@ == s@,
{
    String::from_str(s)
}

/// Two texts, one behind the other.
pub fn concat2(a: &str, b: &str) -> (r: String)
    ensures
        r@ == a@ + b@,
{
    String::from_str(a).concat(b)
}

/// Three texts, one behind the other.
pub fn concat3(a: &str, b: &str, c: &str) -> (r: String)
    ensures
        r@ == a@ + b@ + c@,
{
    String::from_str(a).concat(b).concat(c)
}

/// Four texts, one behind the other.
pub fn concat4(a: &str, b: &str, c: &str, d: &str) -> (r: String)
    ensures
        r@ == a@ + b@ + c@ + d@,
{
    String::from_str(a).concat(b).concat(c).concat(d)
}

/// Five texts, one behind the other.
pub fn concat5(a: &str, b: &str, c: &str, d: &str, e: &str) -> (r: String)
    ensures
        r@ == a@ + b@ + c@ + d@ + e@,
{
    String::from_str(a).concat(b).concat(c).concat(d).concat(e)
}

/// A copy of a list of strings.
pub fn copy_strings(strings: &Vec<String>) -> (r: Vec<String>)
    ensures
        texts(r@) == texts(strings@),
        r@ == strings@,
{
    let mut out: Vec<String> = Vec::new();
    let mut i: usize = 0;
    while i < strings.len()
        invariant
            i <= strings@.len(),
            out@ == strings@.subrange(0, i as int),
        decreases strings@.len() - i,
    {
        out.push(strings[i].clone());
        i += 1;
        assert(strings@.subrange(0, i as int) =~= strings@.subrange(0, i - 1).push(strings@[i - 1]));
    }
    assert(out@ =~= strings@);
    out
}

/// A copy of an optional string.
pub fn copy_opt(s: &Option<String>) -> (r: Option<String>)
    ensures
        r == *s,
{
    match s {
        Some(t) => Some(t.clone()),
        None => None,
    }
}

/// Whether the list holds the text.
pub fn holds(strings: &Vec<String>, s: &str) -> (r: bool)
    ensures
        r == texts(strings@).contains(s@),
{
    let mut i: usize = 0;
    while i < strings.len()
        invariant
            i <= strings@.len(),
            forall|k: int| 0 <= k < i ==> strings@[k]@ != s@,
        decreases strings@.len() - i,
    {
        if same(strings[i].as_str(), s) {
            assert(texts(strings@)[i as int] == s@);
            return true;
        }
        i += 1;
    }
    assert forall|k: int| 0 <= k < texts(strings@).len() implies texts(strings@)[k] != s@ by {
        assert(strings@[k]@ != s@);
    }
    false
}

fn space(c: char) -> (r: bool)
    ensures
        r == is_space(c),
{
    let n = c as u32;
    (0x9 <= n && n <= 0xd) || n == 0x20 || n == 0x85 || n == 0xa0 || n == 0x1680 || (0x2000 <= n && n
        <= 0x200a) || n == 0x2028 || n == 0x2029 || n == 0x202f || n == 0x205f || n == 0x3000
}

/// The text without leading and trailing white space.
pub fn trim(s: &str) -> (r: String)
    ensures
        r@ == trimmed(s@),
{
    let chars = to_chars(s);
    let mut start: usize = 0;
    while start < chars.len() && space(chars[start])
        invariant
            chars@ == s@,
            start <= chars@.len(),
            first_solid(s@, 0) == first_solid(s@, start as int),
        decreases chars@.len() - start,
    {
        start += 1;
    }
    let mut end: usize = chars.len();
    while end > start && space(chars[end - 1])
        invariant
            chars@ == s@,
            start <= end <= chars@.len(),
            solid_end(s@, start as int, s@.len() as int) == solid_end(s@, start as int, end as int),
        decreases end,
    {
        end -= 1;
    }
    from_chars(&chars, start, end)
}

/// Whether the text is empty once white space around it is dropped.
pub fn is_blank(s: &str) -> (r: bool)
    ensures
        r == (trimmed(s@).len() == 0),
{
    let t = trim(s);
    t.as_str().is_empty()
}

/// The text without leading occurrences of `c`.
pub fn trim_start_char(s: &str, c: char) -> (r: String)
    ensures
        r@ == without_leading(s@, c),
{
    let chars = to_chars(s);
    let mut start: usize = 0;
    while start < chars.len() && chars[start] == c
        invariant
            chars@ == s@,
            start <= chars@.len(),
            first_other(s@, c, 0) == first_other(s@, c, start as int),
        decreases chars@.len() - start,
    {
        start += 1;
    }
    from_chars(&chars, start, chars.len())
}

/// The text without leading and trailing occurrences of `c`.
pub fn trim_char(s: &str, c: char) -> (r: String)
    ensures
        r@ == without_around(s@, c),
{
    let chars = to_chars(s);
    let mut start: usize = 0;
    while start < chars.len() && chars[start] == c
        invariant
            chars@ == s@,
            start <= chars@.len(),
            first_other(s@, c, 0) == first_other(s@, c, start as int),
        decreases chars@.len() - start,
    {
        start += 1;
    }
    let mut end: usize = chars.len();
    while end > start && chars[end - 1] == c
        invariant
            chars@ == s@,
            start <= end <= chars@.len(),
            other_end(s@, c, start as int, s@.len() as int) == other_end(
                s@,
                c,
                start as int,
                end as int,
            ),
        decreases end,
    {
        end -= 1;
    }
    from_chars(&chars, start, end)
}

fn find_char(chars: &Vec<char>, c: char, from: usize) -> (r: usize)
    requires
        from <= chars@.len(),
    ensures
        r == first_index(chars@, c, from as int),
        from <= r <= chars@.len(),
{
    let mut i: usize = from;
    while i < chars.len() && chars[i] != c
        invariant
            from <= i <= chars@.len(),
            first_index(chars@, c, from as int) == first_index(chars@, c, i as int),
        decreases chars@.len() - i,
    {
        i += 1;
    }
    i
}

/// Whether the text holds the character.
pub fn has_char(s: &str, c: char) -> (r: bool)
    ensures
        r == s@.contains(c),
{
    let chars = to_chars(s);
    let i: usize = find_char(&chars, c, 0);
    proof {
        lemma_first_index(s@, c, 0);
    }
    if i < chars.len() {
        assert(s@[i as int] == c);
        true
    } else {
        false
    }
}

/// The parts of the text between occurrences of `sep`.
pub fn split(s: &str, sep: char) -> (r: Vec<String>)
    ensures
        texts(r@) == split_parts(s@, sep),
        r@.len() >= 1,
{
    let chars = to_chars(s);
    let mut out: Vec<String> = Vec::new();
    let mut start: usize = 0;
    loop
        invariant
            chars@ == s@,
            start <= chars@.len(),
            split_parts(s@, sep) == texts(out@) + split_from(s@, sep, start as int),
        decreases chars@.len() - start,
    {
        let j: usize = find_char(&chars, sep, start);
        let ghost before = out@;
        out.push(from_chars(&chars, start, j));
        proof {
            assert(texts(out@) =~= texts(before).push(s@.subrange(start as int, j as int)));
        }
        if j >= chars.len() {
            assert(texts(out@) =~= split_parts(s@, sep));
            return out;
        }
        proof {
            assert(texts(out@) + split_from(s@, sep, j + 1) =~= texts(before) + split_from(
                s@,
                sep,
                start as int,
            ));
        }
        start = j + 1;
    }
}

/// The parts joined by `sep`.
pub fn join(parts: &Vec<String>, sep: &str) -> (r: String)
    ensures
        r@ == joined(texts(parts@), sep@),
{
    if parts.len() == 0 {
        return String::new();
    }
    let mut out = parts[0].clone();
    let mut i: usize = 1;
    assert(texts(parts@).subrange(0, 1)[0] == parts@[0]@);
    while i < parts.len()
        invariant
            1 <= i <= parts@.len(),
            out@ == joined(texts(parts@).subrange(0, i as int), sep@),
        decreases parts@.len() - i,
    {
        let ghost all = texts(parts@);
        out = out.concat(sep).concat(parts[i].as_str());
        i += 1;
        assert(all.subrange(0, i as int).drop_last() =~= all.subrange(0, i - 1));
        assert(all.subrange(0, i as int).last() == parts@[i - 1]@);
    }
    assert(texts(parts@).subrange(0, parts@.len() as int) =~= texts(parts@));
    out
}

fn lower(c: char) -> (r: char)
    ensures
        r == lower_char(c),
{
    match c {
        'A' => 'a',
        'B' => 'b',
        'C' => 'c',
        'D' => 'd',
        'E' => 'e',
        'F' => 'f',
        'G' => 'g',
        'H' => 'h',
        'I' => 'i',
        'J' => 'j',
        'K' => 'k',
        'L' => 'l',
        'M' => 'm',
        'N' => 'n',
        'O' => 'o',
        'P' => 'p',
        'Q' => 'q',
        'R' => 'r',
        'S' => 's',
        'T' => 't',
        'U' => 'u',
        'V' => 'v',
        'W' => 'w',
        'X' => 'x',
        'Y' => 'y',
        'Z' => 'z',
        other => other,
    }
}

/// The text with `A..=Z` replaced by `a..=z`.
pub fn to_lower(s: &str) -> (r: String)
    ensures
        r@ == ascii_lower(s@),
{
    let chars = to_chars(s);
    let mut out = String::new();
    let mut i: usize = 0;
    while i < chars.len()
        invariant
            chars@ == s@,
            i <= chars@.len(),
            out@ == ascii_lower(s@).subrange(0, i as int),
        decreases chars@.len() - i,
    {
        out.push(lower(chars[i]));
        i += 1;
        assert(ascii_lower(s@).subrange(0, i as int) =~= ascii_lower(s@).subrange(0, i - 1).push(
            ascii_lower(s@)[i - 1],
        ));
    }
    assert(out@ =~= ascii_lower(s@));
    out
}

/// The text with each `from` replaced by `to`.
pub fn replace_char(s: &str, from: char, to: char) -> (r: String)
    ensures
        r@ == replaced(s@, from, to),
{
    let chars = to_chars(s);
    let mut out = String::new();
    let mut i: usize = 0;
    while i < chars.len()
        invariant
            chars@ == s@,
            i <= chars@.len(),
            out@ == replaced(s@, from, to).subrange(0, i as int),
        decreases chars@.len() - i,
    {
        out.push(
            if chars[i] == from {
                to
            } else {
                chars[i]
            },
        );
        i += 1;
        assert(replaced(s@, from, to).subrange(0, i as int) =~= replaced(s@, from, to).subrange(
            0,
            i - 1,
        ).push(replaced(s@, from, to)[i - 1]));
    }
    assert(out@ =~= replaced(s@, from, to));
    out
}

fn part_stands_at(s: &Vec<char>, part: &Vec<char>, at: usize) -> (r: bool)
    requires
        at + part@.len() <= s@.len(),
    ensures
        r == stands_at(s@, part@, at as int),
{
    let n: usize = s.len();
    let mut i: usize = 0;
    while i < part.len()
        invariant
            at + part@.len() <= s@.len() == n,
            i <= part@.len(),
            forall|k: int| 0 <= k < i ==> s@[at + k] == part@[k],
        decreases part@.len() - i,
    {
        if s[at + i] != part[i] {
            assert(s@.subrange(at as int, at + part@.len())[i as int] != part@[i as int]);
            return false;
        }
        i += 1;
    }
    assert(s@.subrange(at as int, at + part@.len()) =~= part@);
    true
}

pub fn has_prefix(s: &str, prefix: &str) -> (r: bool)
    ensures
        r == starts_with(s@, prefix@),
{
    let x = to_chars(s);
    let y = to_chars(prefix);
    y.len() <= x.len() && part_stands_at(&x, &y, 0)
}

pub fn has_suffix(s: &str, suffix: &str) -> (r: bool)
    ensures
        r == ends_with(s@, suffix@),
{
    let x = to_chars(s);
    let y = to_chars(suffix);
    y.len() <= x.len() && part_stands_at(&x, &y, x.len() - y.len())
}

/// Whether the text holds `part` somewhere.
pub fn has_part(s: &str, part: &str) -> (r: bool)
    ensures
        r == (exists|at: int| stands_at(s@, part@, at)),
{
    let x = to_chars(s);
    let y = to_chars(part);
    if y.len() > x.len() {
        return false;
    }
    let mut at: usize = 0;
    while at <= x.len() - y.len()
        invariant
            x@ == s@,
            y@ == part@,
            y@.len() <= x@.len(),
            at <= x@.len() - y@.len() + 1,
            forall|k: int| 0 <= k < at ==> !stands_at(s@, part@, k),
        decreases x@.len() - at,
    {
        if part_stands_at(&x, &y, at) {
            return true;
        }
        if at == x.len() - y.len() {
            return false;
        }
        at += 1;
    }
    false
}

/// The text behind `prefix`, where `s` starts with it.
pub fn strip_prefix(s: &str, prefix: &str) -> (r: Option<String>)
    ensures
        opt_text(r) == after_prefix(s@, prefix@),
{
    let x = to_chars(s);
    let y = to_chars(prefix);
    if y.len() <= x.len() && part_stands_at(&x, &y, 0) {
        Some(from_chars(&x, y.len(), x.len()))
    } else {
        None
    }
}

/// The text behind `prefix` where `s` starts with it, else `s`.
pub fn drop_prefix(s: &str, prefix: &str) -> (r: String)
    ensures
        r@ == less_prefix(s@, prefix@),
{
    match strip_prefix(s, prefix) {
        Some(rest) => rest,
        None => owned(s),
    }
}

/// The view of an optional pair of strings.
pub open spec fn opt_pair(p: Option<(String, String)>) -> Option<(Seq<char>, Seq<char>)> {
    match p {
        Some((a, b)) => Some((a@, b@)),
        None => None,
    }
}

/// What stands before and behind the first `c` of `s`.
pub fn split_once(s: &str, c: char) -> (r: Option<(String, String)>)
    ensures
        opt_pair(r) == cut_once(s@, c),
{
    let chars = to_chars(s);
    let j: usize = find_char(&chars, c, 0);
    if j < chars.len() {
        Some((from_chars(&chars, 0, j), from_chars(&chars, j + 1, chars.len())))
    } else {
        None
    }
}

/// What stands before and behind the last `c` of `s`.
pub fn rsplit_once(s: &str, c: char) -> (r: Option<(String, String)>)
    ensures
        opt_pair(r) == cut_last(s@, c),
{
    let chars = to_chars(s);
    let mut end: usize = chars.len();
    while end > 0
        invariant
            chars@ == s@,
            end <= chars@.len(),
            last_index(s@, c, s@.len() as int) == last_index(s@, c, end as int),
        decreases end,
    {
        if chars[end - 1] == c {
            return Some((from_chars(&chars, 0, end - 1), from_chars(&chars, end, chars.len())));
        }
        end -= 1;
    }
    None
}

/// The decimal digit for `n`.
pub open spec fn digit(n: nat) -> char {
    if n == 0 {
        '0'
    } else if n == 1 {
        '1'
    } else if n == 2 {
        '2'
    } else if n == 3 {
        '3'
    } else if n == 4 {
        '4'
    } else if n == 5 {
        '5'
    } else if n == 6 {
        '6'
    } else if n == 7 {
        '7'
    } else if n == 8 {
        '8'
    } else {
        '9'
    }
}

/// The number in decimal digits, without leading zeros.
pub open spec fn decimal(n: nat) -> Seq<char>
    decreases n,
{
    if n < 10 {
        seq![digit(n)]
    } else {
        decimal(n / 10).push(digit(n % 10))
    }
}

/// An integer in decimal digits, with a sign where it is negative.
pub open spec fn signed_decimal(n: int) -> Seq<char> {
    if n < 0 {
        "-"@ + decimal((-n) as nat)
    } else {
        decimal(n as nat)
    }
}

fn digit_char(n: u64) -> (r: char)
    requires
        n < 10,
    ensures
        r == digit(n as nat),
{
    match n {
        0 => '0',
        1 => '1',
        2 => '2',
        3 => '3',
        4 => '4',
        5 => '5',
        6 => '6',
        7 => '7',
        8 => '8',
        _ => '9',
    }
}

/// The number in decimal digits.
pub fn decimal_text(n: u64) -> (r: String)
    ensures
        r@ == decimal(n as nat),
    decreases n,
{
    if n < 10 {
        let mut out = String::new();
        out.push(digit_char(n));
        assert(out@ =~= seq![digit(n as nat)]);
        out
    } else {
        let mut out = decimal_text(n / 10);
        out.push(digit_char(n % 10));
        out
    }
}

/// The integer in decimal digits, with a sign where it is negative.
pub fn signed_text(n: i64) -> (r: String)
    ensures
        r@ == signed_decimal(n as int),
{
    if n < 0 {
        let magnitude: u64 = if n == i64::MIN {
            0x8000_0000_0000_0000
        } else {
            (-n) as u64
        };
        let digits = decimal_text(magnitude);
        concat2("-", digits.as_str())
    } else {
        decimal_text(n as u64)
    }
}

} // verus!
