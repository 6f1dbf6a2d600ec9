//! Character-level text operations shared by the parsers.
//!
//! Text is handled as sequences of `char`; every operation here is stated over
//! `Seq<char>` so that the parsers above can be specified the same way.
use vstd::prelude::*;

verus! {

broadcast use vstd::string::group_string_axioms;

// ---------------------------------------------------------------------------
// Specification vocabulary
// ---------------------------------------------------------------------------

/// `p` is a prefix of `s`.
pub open spec fn has_prefix(s: Seq<char>, p: Seq<char>) -> bool {
    p.len() <= s.len() && s.subrange(0, p.len() as int) == p
}

/// `p` is a suffix of `s`.
pub open spec fn has_suffix(s: Seq<char>, p: Seq<char>) -> bool {
    p.len() <= s.len() && s.subrange(s.len() - p.len(), s.len() as int) == p
}

/// `p` occurs in `s` starting at index `i`.
pub open spec fn occurs_at(s: Seq<char>, p: Seq<char>, i: int) -> bool {
    0 <= i && i + p.len() <= s.len() && s.subrange(i, i + p.len()) == p
}

/// First occurrence of `p` in `s` at an index `>= i`.
pub open spec fn find_from(s: Seq<char>, p: Seq<char>, i: int) -> Option<int>
    decreases s.len() + 1 - i,
{
    if i < 0 || i + p.len() > s.len() {
        None
    } else if occurs_at(s, p, i) {
        Some(i)
    } else {
        find_from(s, p, i + 1)
    }
}

/// Index of the first occurrence of `p` in `s`.
pub open spec fn spec_find(s: Seq<char>, p: Seq<char>) -> Option<int> {
    find_from(s, p, 0)
}

/// Last occurrence of `p` in `s` at an index `<= i`.
pub open spec fn rfind_upto(s: Seq<char>, p: Seq<char>, i: int) -> Option<int>
    decreases i + 1,
{
    if i < 0 {
        None
    } else if occurs_at(s, p, i) {
        Some(i)
    } else {
        rfind_upto(s, p, i - 1)
    }
}

/// Index of the last occurrence of `p` in `s`.
pub open spec fn spec_rfind(s: Seq<char>, p: Seq<char>) -> Option<int> {
    rfind_upto(s, p, s.len() - p.len())
}

/// `s` contains `p`.
pub open spec fn spec_contains(s: Seq<char>, p: Seq<char>) -> bool {
    spec_find(s, p) is Some
}

/// `s` without the prefix `p`, when `s` starts with `p`.
pub open spec fn spec_strip_prefix(s: Seq<char>, p: Seq<char>) -> Option<Seq<char>> {
    if has_prefix(s, p) {
        Some(s.skip(p.len() as int))
    } else {
        None
    }
}

/// `s` without the suffix `p`, when `s` ends with `p`.
pub open spec fn spec_strip_suffix(s: Seq<char>, p: Seq<char>) -> Option<Seq<char>> {
    if has_suffix(s, p) {
        Some(s.take(s.len() - p.len()))
    } else {
        None
    }
}

/// `s` with a prefix `p` removed if present, unchanged otherwise.
pub open spec fn strip_prefix_or_keep(s: Seq<char>, p: Seq<char>) -> Seq<char> {
    match spec_strip_prefix(s, p) {
        Some(r) => r,
        None => s,
    }
}

/// `s` with a suffix `p` removed if present, unchanged otherwise.
pub open spec fn strip_suffix_or_keep(s: Seq<char>, p: Seq<char>) -> Seq<char> {
    match spec_strip_suffix(s, p) {
        Some(r) => r,
        None => s,
    }
}

/// The Unicode `White_Space` property, as `char::is_whitespace` defines it.
pub open spec fn is_ws(c: char) -> bool {
    ||| c == '\t' || c == '\n' || c == '\u{0B}' || c == '\u{0C}' || c == '\r' || c == ' '
    ||| c == '\u{85}' || c == '\u{A0}' || c == '\u{1680}'
    ||| ('\u{2000}' <= c && c <= '\u{200A}')
    ||| c == '\u{2028}' || c == '\u{2029}' || c == '\u{202F}' || c == '\u{205F}' || c == '\u{3000}'
}

/// ASCII decimal digit.
pub open spec fn is_digit(c: char) -> bool {
    '0' <= c && c <= '9'
}

/// Value of an ASCII decimal digit.
pub open spec fn digit_value(c: char) -> nat {
    (c as int - '0' as int) as nat
}

/// `s` without leading whitespace.
pub open spec fn trim_start(s: Seq<char>) -> Seq<char>
    decreases s.len(),
{
    if s.len() > 0 && is_ws(s[0]) {
        trim_start(s.drop_first())
    } else {
        s
    }
}

/// `s` without trailing whitespace.
pub open spec fn trim_end(s: Seq<char>) -> Seq<char>
    decreases s.len(),
{
    if s.len() > 0 && is_ws(s.last()) {
        trim_end(s.drop_last())
    } else {
        s
    }
}

/// `s` without leading and trailing whitespace.
pub open spec fn trim(s: Seq<char>) -> Seq<char> {
    trim_end(trim_start(s))
}

/// Index of the first whitespace character of `s`, or its length.
pub open spec fn first_ws(s: Seq<char>) -> int
    decreases s.len(),
{
    if s.len() == 0 {
        0
    } else if is_ws(s[0]) {
        0
    } else {
        1 + first_ws(s.drop_first())
    }
}

/// The whitespace-separated words of `s`.
pub open spec fn split_ws(s: Seq<char>) -> Seq<Seq<char>>
    decreases s.len(),
{
    let t = trim_start(s);
    if t.len() == 0 {
        seq![]
    } else {
        let k = first_ws(t);
        if 0 < k <= t.len() && t.len() <= s.len() {
            seq![t.take(k)] + split_ws(t.skip(k))
        } else {
            seq![t]
        }
    }
}

/// The pieces of `s` between occurrences of `sep` (at least one piece).
pub open spec fn split_on(s: Seq<char>, sep: char) -> Seq<Seq<char>>
    decreases s.len(),
{
    match spec_find(s, seq![sep]) {
        Some(k) => if 0 <= k < s.len() {
            seq![s.take(k)] + split_on(s.skip(k + 1), sep)
        } else {
            seq![s]
        },
        None => seq![s],
    }
}

/// One line without its terminator: a trailing carriage return before a line
/// feed belongs to the terminator.
pub open spec fn strip_cr(line: Seq<char>) -> Seq<char> {
    strip_suffix_or_keep(line, seq!['\r'])
}

/// The lines of `s`, split at `\n` or `\r\n`; a final terminator yields no
/// empty last line.
pub open spec fn spec_lines(s: Seq<char>) -> Seq<Seq<char>>
    decreases s.len(),
{
    if s.len() == 0 {
        seq![]
    } else {
        match spec_find(s, seq!['\n']) {
            Some(k) => if 0 <= k < s.len() {
                seq![strip_cr(s.take(k))] + spec_lines(s.skip(k + 1))
            } else {
                seq![s]
            },
            None => seq![s],
        }
    }
}

/// Numeric value of a sequence of decimal digits.
pub open spec fn digits_value(s: Seq<char>) -> nat
    decreases s.len(),
{
    if s.len() == 0 {
        0
    } else {
        digits_value(s.drop_last()) * 10 + digit_value(s.last())
    }
}

/// Every character of `s` is a decimal digit.
pub open spec fn all_digits(s: Seq<char>) -> bool {
    forall|i: int| 0 <= i < s.len() ==> is_digit(#[trigger] s[i])
}

/// Unsigned decimal number with an optional `+` sign, as `usize::from_str`
/// reads it (without the range check).
pub open spec fn spec_unsigned(s: Seq<char>) -> Option<nat> {
    let d = strip_prefix_or_keep(s, seq!['+']);
    if d.len() > 0 && all_digits(d) {
        Some(digits_value(d))
    } else {
        None
    }
}

/// `usize::from_str`.
pub open spec fn spec_parse_usize(s: Seq<char>) -> Option<usize> {
    match spec_unsigned(s) {
        Some(v) => if v <= usize::MAX {
            Some(v as usize)
        } else {
            None
        },
        None => None,
    }
}

/// `i32::from_str`.
pub open spec fn spec_parse_i32(s: Seq<char>) -> Option<i32> {
    if s.len() > 0 && s[0] == '-' {
        let d = s.drop_first();
        if d.len() > 0 && all_digits(d) && digits_value(d) <= 0x8000_0000 {
            Some((0 - digits_value(d)) as i32)
        } else {
            None
        }
    } else {
        match spec_unsigned(s) {
            Some(v) => if v <= i32::MAX {
                Some(v as i32)
            } else {
                None
            },
            None => None,
        }
    }
}

/// `parts` joined with `sep` between consecutive parts.
pub open spec fn join(parts: Seq<Seq<char>>, sep: Seq<char>) -> Seq<char>
    decreases parts.len(),
{
    if parts.len() == 0 {
        seq![]
    } else if parts.len() == 1 {
        parts[0]
    } else {
        join(parts.drop_last(), sep) + sep + parts.last()
    }
}

/// The first index in `[i, n)` that satisfies `p`.
pub open spec fn first_where(n: int, p: spec_fn(int) -> bool, i: int) -> Option<int>
    decreases n - i,
{
    if i >= n || i < 0 {
        None
    } else if p(i) {
        Some(i)
    } else {
        first_where(n, p, i + 1)
    }
}

/// The last index in `[0, i]` that satisfies `p`.
pub open spec fn last_where(p: spec_fn(int) -> bool, i: int) -> Option<int>
    decreases i + 1,
{
    if i < 0 {
        None
    } else if p(i) {
        Some(i)
    } else {
        last_where(p, i - 1)
    }
}

/// An ASCII character (one byte in UTF-8).
pub open spec fn is_ascii_char(c: char) -> bool {
    (c as u32) < 128
}

/// Views of a vector of character vectors.
pub open spec fn views(v: Seq<Vec<char>>) -> Seq<Seq<char>> {
    v.map_values(|x: Vec<char>| x@)
}

/// Views of a vector of strings.
pub open spec fn str_views(v: Seq<String>) -> Seq<Seq<char>> {
    v.map_values(|x: String| x@)
}

/// An optional index, widened to `int`.
pub open spec fn opt_int(o: Option<usize>) -> Option<int> {
    match o {
        Some(i) => Some(i as int),
        None => None,
    }
}

/// What `first_where` finds satisfies the predicate, and nothing before it
/// does.
pub proof fn lemma_first_where(n: int, p: spec_fn(int) -> bool, i: int)
    requires
        0 <= i,
    ensures
        first_where(n, p, i) matches Some(k) ==> i <= k < n && p(k) && forall|j: int|
            i <= j < k ==> !#[trigger] p(j),
        first_where(n, p, i) is None ==> forall|j: int| i <= j < n && 0 <= j ==> !#[trigger] p(j),
    decreases n - i,
{
    if !(i >= n || i < 0) && !p(i) {
        lemma_first_where(n, p, i + 1);
    }
}

/// `first_where` from 0 gives `r` when `r` is the first index below `n`
/// that satisfies `p`, or `None` when no index does.
pub proof fn lemma_first_where_is(n: int, p: spec_fn(int) -> bool, r: Option<int>)
    requires
        match r {
            Some(k) => 0 <= k < n && p(k) && forall|j: int| 0 <= j < k ==> !#[trigger] p(j),
            None => forall|j: int| 0 <= j < n ==> !#[trigger] p(j),
        },
    ensures
        first_where(n, p, 0) == r,
{
    lemma_first_where(n, p, 0);
}

/// What `last_where` finds satisfies the predicate, and nothing after it (up
/// to `i`) does.
pub proof fn lemma_last_where(p: spec_fn(int) -> bool, i: int)
    ensures
        last_where(p, i) matches Some(k) ==> 0 <= k <= i && p(k) && forall|j: int|
            k < j <= i ==> !#[trigger] p(j),
        last_where(p, i) is None ==> forall|j: int| 0 <= j <= i ==> !#[trigger] p(j),
    decreases i + 1,
{
    if i >= 0 && !p(i) {
        lemma_last_where(p, i - 1);
    }
}

/// `c` is ASCII.
pub fn is_ascii(c: char) -> (r: bool)
    ensures
        r == is_ascii_char(c),
{
    (c as u32) < 128
}

// ---------------------------------------------------------------------------
// Lemmas
// ---------------------------------------------------------------------------

proof fn lemma_find_from_bounds(s: Seq<char>, p: Seq<char>, i: int)
    ensures
        find_from(s, p, i) matches Some(k) ==> i <= k && occurs_at(s, p, k),
    decreases s.len() + 1 - i,
{
    if !(i < 0 || i + p.len() > s.len()) && !occurs_at(s, p, i) {
        lemma_find_from_bounds(s, p, i + 1);
    }
}

/// The first occurrence is an occurrence.
pub proof fn lemma_find_occurs(s: Seq<char>, p: Seq<char>)
    ensures
        spec_find(s, p) matches Some(k) ==> occurs_at(s, p, k),
{
    lemma_find_from_bounds(s, p, 0);
}

proof fn lemma_rfind_upto_bounds(s: Seq<char>, p: Seq<char>, i: int)
    ensures
        rfind_upto(s, p, i) matches Some(k) ==> k <= i && occurs_at(s, p, k),
    decreases i + 1,
{
    if i >= 0 && !occurs_at(s, p, i) {
        lemma_rfind_upto_bounds(s, p, i - 1);
    }
}

/// The last occurrence is an occurrence.
pub proof fn lemma_rfind_occurs(s: Seq<char>, p: Seq<char>)
    ensures
        spec_rfind(s, p) matches Some(k) ==> occurs_at(s, p, k),
{
    lemma_rfind_upto_bounds(s, p, s.len() - p.len());
}

proof fn lemma_trim_start_suffix(s: Seq<char>)
    ensures
        trim_start(s).len() <= s.len(),
        trim_start(s) == s.skip(s.len() - trim_start(s).len()),
    decreases s.len(),
{
    if s.len() > 0 && is_ws(s[0]) {
        lemma_trim_start_suffix(s.drop_first());
        assert(s.drop_first().skip(s.drop_first().len() - trim_start(s).len()) =~= s.skip(
            s.len() - trim_start(s).len(),
        ));
    } else {
        assert(s.skip(0) =~= s);
    }
}

proof fn lemma_trim_end_prefix(s: Seq<char>)
    ensures
        trim_end(s).len() <= s.len(),
        trim_end(s) == s.take(trim_end(s).len() as int),
    decreases s.len(),
{
    if s.len() > 0 && is_ws(s.last()) {
        lemma_trim_end_prefix(s.drop_last());
        assert(s.drop_last().take(trim_end(s).len() as int) =~= s.take(trim_end(s).len() as int));
    } else {
        assert(s.take(s.len() as int) =~= s);
    }
}

/// Trimming never lengthens text.
pub proof fn lemma_trim_len(s: Seq<char>)
    ensures
        trim(s).len() <= s.len(),
        trim_start(s).len() <= s.len(),
        trim_end(s).len() <= s.len(),
{
    lemma_trim_start_suffix(s);
    lemma_trim_end_prefix(trim_start(s));
    lemma_trim_end_prefix(s);
}

proof fn lemma_first_ws_bound(s: Seq<char>)
    ensures
        0 <= first_ws(s) <= s.len(),
        forall|j: int| 0 <= j < first_ws(s) ==> !is_ws(#[trigger] s[j]),
        first_ws(s) < s.len() ==> is_ws(s[first_ws(s)]),
    decreases s.len(),
{
    if s.len() > 0 && !is_ws(s[0]) {
        lemma_first_ws_bound(s.drop_first());
        assert forall|j: int| 0 <= j < first_ws(s) implies !is_ws(#[trigger] s[j]) by {
            if j > 0 {
                assert(s[j] == s.drop_first()[j - 1]);
            }
        }
    }
}

proof fn lemma_digits_value_mono(s: Seq<char>, i: int)
    requires
        0 <= i <= s.len(),
    ensures
        digits_value(s.take(i)) <= digits_value(s),
    decreases s.len(),
{
    if i < s.len() {
        assert(s.drop_last().take(i) =~= s.take(i));
        lemma_digits_value_mono(s.drop_last(), i);
    } else {
        assert(s.take(i) =~= s);
    }
}

// ---------------------------------------------------------------------------
// Executable operations
// ---------------------------------------------------------------------------

/// The characters of `s`, in order.
pub fn to_chars(s: &str) -> (v: Vec<char>)
    ensures
        v@ == s@,
{
    let mut v: Vec<char> = Vec::new();
    for c in it: s.chars()
        invariant
            v@ == it.seq().take(it.index() as int),
            it.seq() == s@,
    {
        v.push(c);
        assert(v@ == it.seq().take(it.index() + 1));
    }
    v
}

/// Builds a `String` from characters, through `String`'s
/// `FromIterator<&char>` implementation, which appends each character in order.
#[verifier::external_body]
pub(crate) fn string_from_chars(v: &Vec<char>) -> (s: String)
    ensures
        s@ == v@,
{
    String::from_iter(v.iter())
}

/// Equality of character sequences.
pub fn chars_eq(a: &Vec<char>, b: &Vec<char>) -> (r: bool)
    ensures
        r == (a@ == b@),
{
    if a.len() != b.len() {
        return false;
    }
    let mut i: usize = 0;
    while i < a.len()
        invariant
            a.len() == b.len(),
            i <= a.len(),
            forall|j: int| 0 <= j < i ==> a@[j] == b@[j],
        decreases a.len() - i,
    {
        if a[i] != b[i] {
            return false;
        }
        i += 1;
    }
    assert(a@ =~= b@);
    true
}

/// Equality of a character sequence and a string.
pub fn eq_str(a: &Vec<char>, b: &str) -> (r: bool)
    ensures
        r == (a@ == b@),
{
    let bv = to_chars(b);
    chars_eq(a, &bv)
}

/// Whether `x` is one of `v`.
pub fn contains_chars(v: &Vec<Vec<char>>, x: &Vec<char>) -> (r: bool)
    ensures
        r == views(v@).contains(x@),
{
    let mut i: usize = 0;
    while i < v.len()
        invariant
            i <= v.len(),
            forall|j: int| 0 <= j < i ==> v@[j]@ != x@,
        decreases v.len() - i,
    {
        if chars_eq(&v[i], x) {
            assert(views(v@)[i as int] == x@);
            return true;
        }
        i += 1;
    }
    assert forall|j: int| 0 <= j < v.len() implies views(v@)[j] != x@ by {
        assert(v@[j]@ != x@);
    }
    false
}

/// Equality of two strings.
pub fn str_eq(a: &str, b: &str) -> (r: bool)
    ensures
        r == (a@ == b@),
{
    let av = to_chars(a);
    let bv = to_chars(b);
    chars_eq(&av, &bv)
}

/// The characters of `v` from `lo` (inclusive) to `hi` (exclusive).
pub fn slice_chars(v: &Vec<char>, lo: usize, hi: usize) -> (r: Vec<char>)
    requires
        lo <= hi <= v.len(),
    ensures
        r@ == v@.subrange(lo as int, hi as int),
{
    let mut r: Vec<char> = Vec::new();
    let mut i = lo;
    while i < hi
        invariant
            lo <= i <= hi <= v.len(),
            r@ == v@.subrange(lo as int, i as int),
        decreases hi - i,
    {
        r.push(v[i]);
        i += 1;
        assert(r@ =~= v@.subrange(lo as int, i as int));
    }
    r
}

/// The characters of `v` from `lo` to the end.
pub fn skip(v: &Vec<char>, lo: usize) -> (r: Vec<char>)
    requires
        lo <= v.len(),
    ensures
        r@ == v@.skip(lo as int),
{
    slice_chars(v, lo, v.len())
}

/// The first `n` characters of `v`.
pub fn take(v: &Vec<char>, n: usize) -> (r: Vec<char>)
    requires
        n <= v.len(),
    ensures
        r@ == v@.take(n as int),
{
    slice_chars(v, 0, n)
}

/// Appends `x` to `acc`.
pub fn append(acc: &mut Vec<char>, x: &Vec<char>)
    ensures
        final(acc)@ == old(acc)@ + x@,
{
    let mut j: usize = 0;
    let ghost start = acc@;
    while j < x.len()
        invariant
            j <= x.len(),
            acc@ == start + x@.take(j as int),
        decreases x.len() - j,
    {
        acc.push(x[j]);
        j += 1;
        assert(acc@ =~= start + x@.take(j as int));
    }
    assert(x@.take(x.len() as int) =~= x@);
}

/// Appends the characters of `x` to `acc`.
pub fn append_str(acc: &mut Vec<char>, x: &str)
    ensures
        final(acc)@ == old(acc)@ + x@,
{
    let xv = to_chars(x);
    append(acc, &xv);
}

/// The parts joined with `sep` between consecutive parts.
pub fn join_chars(parts: &Vec<Vec<char>>, sep: &str) -> (r: Vec<char>)
    ensures
        r@ == join(views(parts@), sep@),
{
    let mut out: Vec<char> = Vec::new();
    let mut i: usize = 0;
    while i < parts.len()
        invariant
            i <= parts.len(),
            out@ == join(views(parts@).take(i as int), sep@),
        decreases parts.len() - i,
    {
        let ghost prev = out@;
        if i > 0 {
            append_str(&mut out, sep);
        }
        append(&mut out, &parts[i]);
        i += 1;
        proof {
            let p = views(parts@).take(i as int);
            assert(p.drop_last() =~= views(parts@).take(i - 1));
            if i == 1 {
                assert(out@ =~= p[0]);
            }
        }
    }
    assert(views(parts@).take(parts.len() as int) =~= views(parts@));
    out
}

/// `p` occurs in `s` at `i`.
pub fn matches_at(s: &Vec<char>, p: &Vec<char>, i: usize) -> (r: bool)
    ensures
        r == occurs_at(s@, p@, i as int),
{
    if i > s.len() || p.len() > s.len() - i {
        return false;
    }
    let mut j: usize = 0;
    while j < p.len()
        invariant
            i + p.len() <= s.len(),
            j <= p.len(),
            forall|k: int| 0 <= k < j ==> s@[i + k] == p@[k],
        decreases p.len() - j,
    {
        if s[i + j] != p[j] {
            assert(s@.subrange(i as int, i + p.len())[j as int] != p@[j as int]);
            return false;
        }
        j += 1;
    }
    assert(s@.subrange(i as int, i + p.len()) =~= p@);
    true
}

/// `s` starts with `p`.
pub fn starts_with(s: &Vec<char>, p: &Vec<char>) -> (r: bool)
    ensures
        r == has_prefix(s@, p@),
{
    let r = matches_at(s, p, 0);
    assert(r == has_prefix(s@, p@));
    r
}

/// `s` ends with `p`.
pub fn ends_with(s: &Vec<char>, p: &Vec<char>) -> (r: bool)
    ensures
        r == has_suffix(s@, p@),
{
    if p.len() > s.len() {
        return false;
    }
    matches_at(s, p, s.len() - p.len())
}

/// `s` starts with the string `p`.
pub fn starts_with_str(s: &Vec<char>, p: &str) -> (r: bool)
    ensures
        r == has_prefix(s@, p@),
{
    let pv = to_chars(p);
    starts_with(s, &pv)
}

/// `s` ends with the string `p`.
pub fn ends_with_str(s: &Vec<char>, p: &str) -> (r: bool)
    ensures
        r == has_suffix(s@, p@),
{
    let pv = to_chars(p);
    ends_with(s, &pv)
}

/// Index of the first occurrence of `p` in `s`.
pub fn find(s: &Vec<char>, p: &Vec<char>) -> (r: Option<usize>)
    ensures
        opt_int(r) == spec_find(s@, p@),
{
    if p.len() > s.len() {
        return None;
    }
    let last = s.len() - p.len();
    let mut i: usize = 0;
    loop
        invariant
            i <= last,
            last + p.len() == s.len(),
            spec_find(s@, p@) == find_from(s@, p@, i as int),
        decreases last - i,
    {
        if matches_at(s, p, i) {
            return Some(i);
        }
        if i == last {
            assert(find_from(s@, p@, i + 1) is None);
            return None;
        }
        i += 1;
    }
}

/// Index of the last occurrence of `p` in `s`.
pub fn rfind(s: &Vec<char>, p: &Vec<char>) -> (r: Option<usize>)
    ensures
        opt_int(r) == spec_rfind(s@, p@),
{
    if p.len() > s.len() {
        return None;
    }
    let mut i: usize = s.len() - p.len();
    loop
        invariant
            i + p.len() <= s.len(),
            spec_rfind(s@, p@) == rfind_upto(s@, p@, i as int),
        decreases i,
    {
        if matches_at(s, p, i) {
            return Some(i);
        }
        if i == 0 {
            assert(rfind_upto(s@, p@, -1) is None);
            return None;
        }
        i -= 1;
    }
}

/// Index of the first occurrence of the string `p` in `s`.
pub fn find_str(s: &Vec<char>, p: &str) -> (r: Option<usize>)
    ensures
        opt_int(r) == spec_find(s@, p@),
{
    let pv = to_chars(p);
    find(s, &pv)
}

/// Index of the last occurrence of the string `p` in `s`.
pub fn rfind_str(s: &Vec<char>, p: &str) -> (r: Option<usize>)
    ensures
        opt_int(r) == spec_rfind(s@, p@),
{
    let pv = to_chars(p);
    rfind(s, &pv)
}

/// `s` contains the string `p`.
pub fn contains_str(s: &Vec<char>, p: &str) -> (r: bool)
    ensures
        r == spec_contains(s@, p@),
{
    find_str(s, p).is_some()
}

/// Index of the first occurrence of `c` in `s`.
pub fn find_char(s: &Vec<char>, c: char) -> (r: Option<usize>)
    ensures
        opt_int(r) == spec_find(s@, seq![c]),
{
    let pv = vec![c];
    assert(pv@ =~= seq![c]);
    find(s, &pv)
}

/// Index of the last occurrence of `c` in `s`.
pub fn rfind_char(s: &Vec<char>, c: char) -> (r: Option<usize>)
    ensures
        opt_int(r) == spec_rfind(s@, seq![c]),
{
    let pv = vec![c];
    assert(pv@ =~= seq![c]);
    rfind(s, &pv)
}

/// `s` without the prefix `p`, if `s` starts with it.
pub fn strip_prefix_str(s: &Vec<char>, p: &str) -> (r: Option<Vec<char>>)
    ensures
        r is Some == has_prefix(s@, p@),
        r matches Some(x) ==> x@ == s@.skip(p@.len() as int),
{
    let pv = to_chars(p);
    if starts_with(s, &pv) {
        Some(skip(s, pv.len()))
    } else {
        None
    }
}

/// `s` without the suffix `p`, if `s` ends with it.
pub fn strip_suffix_str(s: &Vec<char>, p: &str) -> (r: Option<Vec<char>>)
    ensures
        r is Some == has_suffix(s@, p@),
        r matches Some(x) ==> x@ == s@.take(s@.len() - p@.len()),
{
    let pv = to_chars(p);
    if ends_with(s, &pv) {
        Some(take(s, s.len() - pv.len()))
    } else {
        None
    }
}

/// `s` without the prefix `p` when present, else `s` unchanged.
pub fn strip_prefix_or_keep_str(s: &Vec<char>, p: &str) -> (r: Vec<char>)
    ensures
        r@ == strip_prefix_or_keep(s@, p@),
{
    match strip_prefix_str(s, p) {
        Some(x) => x,
        None => slice_chars(s, 0, s.len()),
    }
}

/// `s` without the suffix `p` when present, else `s` unchanged.
pub fn strip_suffix_or_keep_str(s: &Vec<char>, p: &str) -> (r: Vec<char>)
    ensures
        r@ == strip_suffix_or_keep(s@, p@),
{
    match strip_suffix_str(s, p) {
        Some(x) => x,
        None => slice_chars(s, 0, s.len()),
    }
}

/// `char::is_whitespace`.
pub fn is_whitespace(c: char) -> (r: bool)
    ensures
        r == is_ws(c),
{
    c == '\t' || c == '\n' || c == '\u{0B}' || c == '\u{0C}' || c == '\r' || c == ' ' || c
        == '\u{85}' || c == '\u{A0}' || c == '\u{1680}' || ('\u{2000}' <= c && c <= '\u{200A}')
        || c == '\u{2028}' || c == '\u{2029}' || c == '\u{202F}' || c == '\u{205F}' || c
        == '\u{3000}'
}

/// `str::trim_start`.
pub fn trim_start_chars(s: &Vec<char>) -> (r: Vec<char>)
    ensures
        r@ == trim_start(s@),
{
    let mut i: usize = 0;
    assert(s@.skip(0) =~= s@);
    while i < s.len() && is_whitespace(s[i])
        invariant
            i <= s.len(),
            trim_start(s@) == trim_start(s@.skip(i as int)),
        decreases s.len() - i,
    {
        assert(s@.skip(i as int).drop_first() =~= s@.skip(i + 1));
        i += 1;
    }
    skip(s, i)
}

/// `str::trim_end`.
pub fn trim_end_chars(s: &Vec<char>) -> (r: Vec<char>)
    ensures
        r@ == trim_end(s@),
{
    let mut n: usize = s.len();
    assert(s@.take(s@.len() as int) =~= s@);
    while n > 0 && is_whitespace(s[n - 1])
        invariant
            n <= s.len(),
            trim_end(s@) == trim_end(s@.take(n as int)),
        decreases n,
    {
        assert(s@.take(n as int).drop_last() =~= s@.take(n - 1));
        n -= 1;
    }
    take(s, n)
}

/// `str::trim`.
pub fn trim_chars(s: &Vec<char>) -> (r: Vec<char>)
    ensures
        r@ == trim(s@),
{
    let a = trim_start_chars(s);
    trim_end_chars(&a)
}

/// `str::split_whitespace`.
pub fn split_whitespace(s: &Vec<char>) -> (r: Vec<Vec<char>>)
    ensures
        views(r@) == split_ws(s@),
{
    let mut out: Vec<Vec<char>> = Vec::new();
    let mut rest = trim_start_chars(s);
    proof {
        lemma_trim_start_suffix(s@);
        lemma_trim_start_idem(s@);
        lemma_split_ws_trim(s@);
    }
    assert(views(out@) + split_ws(rest@) =~= split_ws(s@));
    while rest.len() > 0
        invariant
            views(out@) + split_ws(rest@) == split_ws(s@),
            rest@ == trim_start(rest@),
        decreases rest.len(),
    {
        let mut k: usize = 0;
        assert(rest@.skip(0) =~= rest@);
        while k < rest.len() && !is_whitespace(rest[k])
            invariant
                k <= rest.len(),
                first_ws(rest@) == k + first_ws(rest@.skip(k as int)),
            decreases rest.len() - k,
        {
            assert(rest@.skip(k as int).drop_first() =~= rest@.skip(k + 1));
            k += 1;
        }
        proof {
            lemma_first_ws_bound(rest@);
            if k < rest.len() {
                assert(first_ws(rest@.skip(k as int)) == 0);
            } else {
                assert(rest@.skip(k as int).len() == 0);
            }
            assert(first_ws(rest@) == k);
            assert(k > 0) by {
                lemma_trim_start_fixed(rest@);
            }
        }
        let word = take(&rest, k);
        let tail = skip(&rest, k);
        let next = trim_start_chars(&tail);
        proof {
            lemma_trim_start_suffix(tail@);
            lemma_trim_start_idem(tail@);
            assert(split_ws(rest@) == seq![rest@.take(k as int)] + split_ws(rest@.skip(k as int)));
            assert(split_ws(tail@) == split_ws(next@)) by {
                lemma_split_ws_trim(tail@);
            }
        }
        let ghost prev = out@;
        out.push(word);
        assert(views(out@) =~= views(prev) + seq![word@]);
        assert(views(out@) + split_ws(next@) =~= views(prev) + (seq![word@] + split_ws(tail@)));
        rest = next;
    }
    assert(split_ws(rest@) =~= seq![]);
    assert(views(out@) =~= views(out@) + split_ws(rest@));
    out
}

proof fn lemma_trim_start_idem(s: Seq<char>)
    ensures
        trim_start(trim_start(s)) == trim_start(s),
    decreases s.len(),
{
    if s.len() > 0 && is_ws(s[0]) {
        lemma_trim_start_idem(s.drop_first());
    }
}

proof fn lemma_trim_end_idem(s: Seq<char>)
    ensures
        trim_end(trim_end(s)) == trim_end(s),
    decreases s.len(),
{
    if s.len() > 0 && is_ws(s.last()) {
        lemma_trim_end_idem(s.drop_last());
    }
}

/// Trimming twice is trimming once.
pub proof fn lemma_trim_idem(s: Seq<char>)
    ensures
        trim(trim(s)) == trim(s),
{
    let a = trim_start(s);
    let b = trim_end(a);
    lemma_trim_start_idem(s);
    lemma_trim_end_prefix(a);
    lemma_trim_end_idem(a);
    if b.len() > 0 {
        lemma_trim_start_fixed(a);
        assert(b[0] == a[0]);
        assert(trim_start(b) == b);
    } else {
        assert(trim_start(b) == b);
    }
}

proof fn lemma_trim_start_fixed(s: Seq<char>)
    requires
        s == trim_start(s),
        s.len() > 0,
    ensures
        !is_ws(s[0]),
{
    if is_ws(s[0]) {
        lemma_trim_start_suffix(s.drop_first());
    }
}

proof fn lemma_split_ws_trim(s: Seq<char>)
    ensures
        split_ws(s) == split_ws(trim_start(s)),
{
    lemma_trim_start_idem(s);
    lemma_trim_start_suffix(s);
}

/// The pieces of `s` between occurrences of `sep`.
pub fn split_char(s: &Vec<char>, sep: char) -> (r: Vec<Vec<char>>)
    ensures
        views(r@) == split_on(s@, sep),
{
    let mut out: Vec<Vec<char>> = Vec::new();
    let mut rest = slice_chars(s, 0, s.len());
    assert(rest@ =~= s@);
    assert(views(out@) + split_on(rest@, sep) =~= split_on(s@, sep));
    loop
        invariant
            views(out@) + split_on(rest@, sep) == split_on(s@, sep),
        decreases rest.len(),
    {
        match find_char(&rest, sep) {
            Some(k) => {
                proof {
                    lemma_find_occurs(rest@, seq![sep]);
                }
                let piece = take(&rest, k);
                let tail = skip(&rest, k + 1);
                let ghost prev = out@;
                out.push(piece);
                assert(views(out@) =~= views(prev) + seq![piece@]);
                assert(views(out@) + split_on(tail@, sep) =~= views(prev) + split_on(rest@, sep));
                rest = tail;
            },
            None => {
                let ghost prev = out@;
                out.push(rest);
                assert(views(out@) =~= views(prev) + split_on(rest@, sep));
                return out;
            },
        }
    }
}

/// `str::lines`.
pub fn lines(s: &Vec<char>) -> (r: Vec<Vec<char>>)
    ensures
        views(r@) == spec_lines(s@),
{
    let mut out: Vec<Vec<char>> = Vec::new();
    let mut start: usize = 0;
    let mut i: usize = 0;
    assert(s@.skip(0) =~= s@);
    while i < s.len()
        invariant
            start <= i <= s.len(),
            views(out@) + spec_lines(s@.skip(start as int)) == spec_lines(s@),
            forall|j: int| start <= j < i ==> s@[j] != '\n',
        decreases s.len() - i,
    {
        if s[i] == '\n' {
            let ghost rest = s@.skip(start as int);
            proof {
                assert forall|j: int| 0 <= j < i - start implies !occurs_at(rest, seq!['\n'], j) by {
                    assert(rest.subrange(j, j + 1)[0] == s@[start + j]);
                }
                assert(occurs_at(rest, seq!['\n'], i - start)) by {
                    assert(rest.subrange(i - start, i - start + 1) =~= seq!['\n']);
                }
                lemma_find_from_first(rest, seq!['\n'], 0, i - start);
                assert(rest.take(i - start) =~= s@.subrange(start as int, i as int));
                assert(rest.skip(i - start + 1) =~= s@.skip(i + 1));
            }
            let piece = slice_chars(s, start, i);
            let line = strip_suffix_or_keep_str(&piece, "\r");
            proof {
                reveal_strlit("\r");
                assert("\r"@ =~= seq!['\r']);
            }
            let ghost prev = out@;
            out.push(line);
            assert(views(out@) =~= views(prev) + seq![line@]);
            assert(views(out@) + spec_lines(s@.skip(i + 1)) =~= views(prev) + spec_lines(rest));
            start = i + 1;
        }
        i += 1;
    }
    if start < s.len() {
        let ghost rest = s@.skip(start as int);
        proof {
            assert forall|j: int| 0 <= j implies !occurs_at(rest, seq!['\n'], j) by {
                if occurs_at(rest, seq!['\n'], j) {
                    assert(rest.subrange(j, j + 1)[0] == s@[start + j]);
                }
            }
            lemma_find_from_none(rest, seq!['\n'], 0);
        }
        let piece = slice_chars(s, start, s.len());
        let ghost prev = out@;
        out.push(piece);
        assert(views(out@) =~= views(prev) + seq![piece@]);
        assert(spec_lines(rest) == seq![rest]);
        assert(views(out@) =~= views(prev) + spec_lines(rest));
    } else {
        assert(spec_lines(s@.skip(start as int)) =~= seq![]);
        assert(views(out@) =~= views(out@) + spec_lines(s@.skip(start as int)));
    }
    out
}

/// There are no more lines than characters.
pub proof fn lemma_lines_len(s: Seq<char>)
    ensures
        spec_lines(s).len() <= s.len(),
    decreases s.len(),
{
    if s.len() > 0 {
        match spec_find(s, seq!['\n']) {
            Some(k) => if 0 <= k < s.len() {
                lemma_lines_len(s.skip(k + 1));
            },
            None => {},
        }
    }
}

/// When nothing in `[i, k)` matches and `k` matches, the search from `i`
/// finds `k`.
pub proof fn lemma_find_from_first(s: Seq<char>, p: Seq<char>, i: int, k: int)
    requires
        0 <= i <= k,
        occurs_at(s, p, k),
        forall|j: int| i <= j < k ==> !occurs_at(s, p, j),
    ensures
        find_from(s, p, i) == Some(k),
    decreases k - i,
{
    if i < k {
        lemma_find_from_first(s, p, i + 1, k);
    }
}

/// When nothing at or after `i` matches, the search from `i` finds nothing.
pub proof fn lemma_find_from_none(s: Seq<char>, p: Seq<char>, i: int)
    requires
        0 <= i,
        forall|j: int| i <= j ==> !occurs_at(s, p, j),
    ensures
        find_from(s, p, i) is None,
    decreases s.len() + 1 - i,
{
    if !(i + p.len() > s.len()) {
        lemma_find_from_none(s, p, i + 1);
    }
}

/// `usize::from_str`.
pub fn parse_usize(s: &Vec<char>) -> (r: Option<usize>)
    ensures
        r == spec_parse_usize(s@),
{
    let d = strip_prefix_or_keep_str(s, "+");
    proof {
        reveal_strlit("+");
        assert("+"@ =~= seq!['+']);
    }
    if d.len() == 0 {
        return None;
    }
    let mut v: usize = 0;
    let mut i: usize = 0;
    while i < d.len()
        invariant
            i <= d.len(),
            d@ == strip_prefix_or_keep(s@, seq!['+']),
            all_digits(d@.take(i as int)),
            v == digits_value(d@.take(i as int)),
        decreases d.len() - i,
    {
        let c = d[i];
        if !('0' <= c && c <= '9') {
            assert(!all_digits(d@)) by {
                assert(!is_digit(d@[i as int]));
            }
            return None;
        }
        let dv = (c as u32 - '0' as u32) as usize;
        assert(d@.take(i + 1).drop_last() =~= d@.take(i as int));
        if v > (usize::MAX - dv) / 10 {
            proof {
                assert(digits_value(d@.take(i + 1)) == v * 10 + dv);
                assert(v * 10 + dv > usize::MAX) by (nonlinear_arith)
                    requires
                        v > (usize::MAX - dv) / 10,
                        dv <= 9,
                ;
                if all_digits(d@) {
                    lemma_digits_value_mono(d@, i + 1);
                }
            }
            return None;
        }
        assert(v * 10 + dv <= usize::MAX) by (nonlinear_arith)
            requires
                v <= (usize::MAX - dv) / 10,
                dv <= 9,
        ;
        v = v * 10 + dv;
        i += 1;
        assert(all_digits(d@.take(i as int))) by {
            assert forall|j: int| 0 <= j < i implies is_digit(#[trigger] d@.take(i as int)[j]) by {
                if j < i - 1 {
                    assert(d@.take(i as int)[j] == d@.take(i - 1)[j]);
                }
            }
        }
    }
    assert(d@.take(i as int) =~= d@);
    Some(v)
}

/// `i32::from_str`.
pub fn parse_i32(s: &Vec<char>) -> (r: Option<i32>)
    ensures
        r == spec_parse_i32(s@),
{
    if s.len() > 0 && s[0] == '-' {
        let d = skip(s, 1);
        assert(d@ =~= s@.drop_first());
        match parse_usize_bounded(&d, 0x8000_0000) {
            Some(v) => {
                let r = (0 - (v as i64)) as i32;
                Some(r)
            },
            None => None,
        }
    } else {
        let d = strip_prefix_or_keep_str(s, "+");
        proof {
            reveal_strlit("+");
            assert("+"@ =~= seq!['+']);
        }
        match parse_usize_bounded(&d, 0x7fff_ffff) {
            Some(v) => Some(v as i32),
            None => None,
        }
    }
}

/// Digits only (no sign), with a value of at most `max`.
fn parse_usize_bounded(d: &Vec<char>, max: u64) -> (r: Option<u64>)
    requires
        max <= 0x8000_0000,
    ensures
        r is Some == (d@.len() > 0 && all_digits(d@) && digits_value(d@) <= max),
        r matches Some(v) ==> v == digits_value(d@),
{
    if d.len() == 0 {
        return None;
    }
    let mut v: u64 = 0;
    let mut i: usize = 0;
    while i < d.len()
        invariant
            i <= d.len(),
            max <= 0x8000_0000,
            all_digits(d@.take(i as int)),
            v == digits_value(d@.take(i as int)),
            v <= max,
        decreases d.len() - i,
    {
        let c = d[i];
        if !('0' <= c && c <= '9') {
            assert(!all_digits(d@)) by {
                assert(!is_digit(d@[i as int]));
            }
            return None;
        }
        let dv = (c as u32 - '0' as u32) as u64;
        assert(d@.take(i + 1).drop_last() =~= d@.take(i as int));
        let nv = v * 10 + dv;
        if nv > max {
            proof {
                assert(digits_value(d@.take(i + 1)) == nv);
                if all_digits(d@) {
                    lemma_digits_value_mono(d@, i + 1);
                }
            }
            return None;
        }
        v = nv;
        i += 1;
        assert(all_digits(d@.take(i as int))) by {
            assert forall|j: int| 0 <= j < i implies is_digit(#[trigger] d@.take(i as int)[j]) by {
                if j < i - 1 {
                    assert(d@.take(i as int)[j] == d@.take(i - 1)[j]);
                }
            }
        }
    }
    assert(d@.take(i as int) =~= d@);
    Some(v)
}

} // verus!
