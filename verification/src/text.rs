//! Character classes and string helpers: the tokenizer's scanning rules and
//! the engine's CSV splitting, joining and comparison are all stated over
//! these.
//!
//! The character classes are deliberately ASCII: identifiers and keywords
//! are made of ASCII letters and digits, and only ASCII whitespace
//! separates tokens.  Quoted string literals still carry any text.  A
//! command with a non-ASCII letter outside quotes is a lexical error
//! rather than an identifier; this keeps the whole tokenizer verified,
//! with no classification tables taken on trust.

use vstd::prelude::*;
use vstd::string::StrSliceExecFns;
use vstd::string::StringExecFns;

verus! {

/// Whitespace that the tokenizer skips between tokens.
pub open spec fn is_space_char(c: char) -> bool {
    c == ' ' || c == '\t' || c == '\n' || c == '\r'
}

/// An ASCII decimal digit.
pub open spec fn is_digit_char(c: char) -> bool {
    '0' <= c && c <= '9'
}

/// An ASCII letter.  Identifiers and keywords are made of these (and, past
/// the first character, digits).
pub open spec fn is_alpha_char(c: char) -> bool {
    ('a' <= c && c <= 'z') || ('A' <= c && c <= 'Z')
}

/// An ASCII letter or digit.
pub open spec fn is_alnum_char(c: char) -> bool {
    is_alpha_char(c) || is_digit_char(c)
}

/// ASCII upper-casing, one character at a time; anything but a lower-case
/// letter is left as it is.
pub open spec fn upper_char(c: char) -> char {
    if 'a' <= c && c <= 'z' {
        (((c as u32) - 32) as u8) as char
    } else {
        c
    }
}

/// ASCII upper-casing of a whole character sequence.
pub open spec fn upper_chars(s: Seq<char>) -> Seq<char> {
    s.map_values(|c: char| upper_char(c))
}

pub fn space_char(c: char) -> (r: bool)
    ensures
        r == is_space_char(c),
{
    c == ' ' || c == '\t' || c == '\n' || c == '\r'
}

pub fn digit_char(c: char) -> (r: bool)
    ensures
        r == is_digit_char(c),
{
    '0' <= c && c <= '9'
}

pub fn alpha_char(c: char) -> (r: bool)
    ensures
        r == is_alpha_char(c),
{
    ('a' <= c && c <= 'z') || ('A' <= c && c <= 'Z')
}

pub fn alnum_char(c: char) -> (r: bool)
    ensures
        r == is_alnum_char(c),
{
    alpha_char(c) || digit_char(c)
}

pub fn to_upper_char(c: char) -> (r: char)
    ensures
        r == upper_char(c),
{
    if 'a' <= c && c <= 'z' {
        (((c as u32) - 32) as u8) as char
    } else {
        c
    }
}

/// The characters of a string, as a vector.
pub fn chars_of(s: &str) -> (r: Vec<char>)
    ensures
        r@ == s@,
{
    let n = s.unicode_len();
    let mut r: Vec<char> = Vec::new();
    let mut i: usize = 0;
    while i < n
        invariant
            n == s@.len(),
            i <= n,
            r@ == s@.subrange(0, i as int),
        decreases n - i,
    {
        r.push(s.get_char(i));
        i += 1;
        proof {
            assert(r@ =~= s@.subrange(0, i as int));
        }
    }
    proof {
        assert(r@ =~= s@);
    }
    r
}

/// Relies on `String: FromIterator<char>`: collecting characters yields a
/// string holding exactly that character sequence.
#[verifier::external_body]
pub fn string_from_chars(chars: &Vec<char>) -> (r: String)
    ensures
        r@ == chars@,
{
    chars.iter().collect()
}

/// Upper-cases a whole vector of characters.
pub fn upper_vec(chars: &Vec<char>) -> (r: Vec<char>)
    ensures
        r@ == upper_chars(chars@),
{
    let mut r: Vec<char> = Vec::new();
    let mut i: usize = 0;
    while i < chars.len()
        invariant
            i <= chars@.len(),
            r@ == upper_chars(chars@.subrange(0, i as int)),
        decreases chars@.len() - i,
    {
        r.push(to_upper_char(chars[i]));
        i += 1;
        proof {
            assert(r@ =~= upper_chars(chars@.subrange(0, i as int)));
        }
    }
    proof {
        assert(chars@.subrange(0, chars@.len() as int) =~= chars@);
    }
    r
}

/// What a vector's deep view holds at each index: the element's own deep
/// view.  Stated once so that proofs about nested views need not re-derive
/// it.
pub proof fn lemma_vec_deep_view<T: DeepView>(v: &Vec<T>)
    ensures
        v.deep_view().len() == v@.len(),
        forall|i: int| 0 <= i < v@.len() ==> #[trigger] v.deep_view()[i] == v@[i].deep_view(),
{
}

/// Whether one of the strings in `v` holds exactly the characters of `s`.
pub fn contains_string(v: &Vec<String>, s: &str) -> (r: bool)
    ensures
        r == v.deep_view().contains(s@),
{
    proof {
        lemma_vec_deep_view(v);
    }
    let mut k: usize = 0;
    while k < v.len()
        invariant
            k <= v@.len(),
            v.deep_view().len() == v@.len(),
            forall|j: int| 0 <= j < v@.len() ==> v.deep_view()[j] == v@[j]@,
            forall|j: int| 0 <= j < k ==> v.deep_view()[j] != s@,
        decreases v@.len() - k,
    {
        if str_eq_str(v[k].as_str(), s) {
            proof {
                assert(v.deep_view()[k as int] == s@);
            }
            return true;
        }
        k += 1;
    }
    proof {
        assert(!v.deep_view().contains(s@));
    }
    false
}

/// The length of the run of characters satisfying `p` that starts at `i`.
pub open spec fn count_while(s: Seq<char>, i: int, p: spec_fn(char) -> bool) -> int
    decreases s.len() - i,
    when 0 <= i <= s.len()
{
    if i < s.len() && p(s[i]) {
        1 + count_while(s, i + 1, p)
    } else {
        0
    }
}

/// What `count_while` counts: the run is maximal, lies inside the sequence,
/// and every character in it satisfies `p`.
pub proof fn lemma_count_while(s: Seq<char>, i: int, p: spec_fn(char) -> bool)
    requires
        0 <= i <= s.len(),
    ensures
        0 <= count_while(s, i, p) <= s.len() - i,
        forall|j: int| i <= j < i + count_while(s, i, p) ==> p(s[j]),
        i + count_while(s, i, p) < s.len() ==> !p(s[i + count_while(s, i, p)]),
        i < s.len() && p(s[i]) ==> count_while(s, i, p) >= 1,
    decreases s.len() - i,
{
    if i < s.len() && p(s[i]) {
        lemma_count_while(s, i + 1, p);
    }
}

/// Lexicographic comparison of character sequences, by unicode scalar
/// value.  This is the order Rust's own string comparison induces, since
/// UTF-8 preserves it byte-wise.
pub open spec fn spec_str_cmp(a: Seq<char>, b: Seq<char>) -> core::cmp::Ordering
    decreases a.len(),
{
    if a.len() == 0 && b.len() == 0 {
        core::cmp::Ordering::Equal
    } else if a.len() == 0 {
        core::cmp::Ordering::Less
    } else if b.len() == 0 {
        core::cmp::Ordering::Greater
    } else if (a[0] as u32) < (b[0] as u32) {
        core::cmp::Ordering::Less
    } else if (a[0] as u32) > (b[0] as u32) {
        core::cmp::Ordering::Greater
    } else {
        spec_str_cmp(a.drop_first(), b.drop_first())
    }
}

/// Comparison is unchanged by dropping an equal prefix.
proof fn lemma_str_cmp_skip(a: Seq<char>, b: Seq<char>, i: int)
    requires
        0 <= i <= a.len(),
        i <= b.len(),
        forall|j: int| 0 <= j < i ==> a[j] == b[j],
    ensures
        spec_str_cmp(a, b) == spec_str_cmp(a.skip(i), b.skip(i)),
    decreases i,
{
    if i > 0 {
        assert(a.skip(1).skip(i - 1) =~= a.skip(i));
        assert(b.skip(1).skip(i - 1) =~= b.skip(i));
        assert(a.drop_first() =~= a.skip(1));
        assert(b.drop_first() =~= b.skip(1));
        assert((a[0] as u32) == (b[0] as u32));
        lemma_str_cmp_skip(a.skip(1), b.skip(1), i - 1);
    } else {
        assert(a.skip(0) =~= a);
        assert(b.skip(0) =~= b);
    }
}

/// Lexicographic comparison reverses with its arguments.
pub proof fn lemma_str_cmp_antisym(a: Seq<char>, b: Seq<char>)
    ensures
        (spec_str_cmp(a, b) == core::cmp::Ordering::Less) <==> (spec_str_cmp(b, a)
            == core::cmp::Ordering::Greater),
        (spec_str_cmp(a, b) == core::cmp::Ordering::Equal) <==> (spec_str_cmp(b, a)
            == core::cmp::Ordering::Equal),
    decreases a.len(),
{
    if a.len() > 0 && b.len() > 0 && (a[0] as u32) == (b[0] as u32) {
        lemma_str_cmp_antisym(a.drop_first(), b.drop_first());
    }
}

/// Lexicographic at-most is transitive.
pub proof fn lemma_str_cmp_trans(a: Seq<char>, b: Seq<char>, c: Seq<char>)
    requires
        spec_str_cmp(a, b) != core::cmp::Ordering::Greater,
        spec_str_cmp(b, c) != core::cmp::Ordering::Greater,
    ensures
        spec_str_cmp(a, c) != core::cmp::Ordering::Greater,
    decreases a.len(),
{
    if a.len() > 0 && b.len() > 0 && c.len() > 0 {
        if (a[0] as u32) == (b[0] as u32) && (b[0] as u32) == (c[0] as u32) {
            lemma_str_cmp_trans(a.drop_first(), b.drop_first(), c.drop_first());
        }
    }
}

/// Compares two strings lexicographically, as [`spec_str_cmp`] defines it.
pub fn str_compare(a: &str, b: &str) -> (r: core::cmp::Ordering)
    ensures
        r == spec_str_cmp(a@, b@),
{
    let na = a.unicode_len();
    let nb = b.unicode_len();
    let mut i: usize = 0;
    while i < na && i < nb
        invariant
            na == a@.len(),
            nb == b@.len(),
            i <= na,
            i <= nb,
            forall|j: int| 0 <= j < i ==> a@[j] == b@[j],
        decreases na - i,
    {
        let ca = a.get_char(i);
        let cb = b.get_char(i);
        if (ca as u32) < (cb as u32) {
            proof {
                lemma_str_cmp_skip(a@, b@, i as int);
            }
            return core::cmp::Ordering::Less;
        }
        if (ca as u32) > (cb as u32) {
            proof {
                lemma_str_cmp_skip(a@, b@, i as int);
            }
            return core::cmp::Ordering::Greater;
        }
        proof {
            assert(ca == cb);
        }
        i += 1;
    }
    proof {
        lemma_str_cmp_skip(a@, b@, i as int);
    }
    if na == nb {
        core::cmp::Ordering::Equal
    } else if na < nb {
        core::cmp::Ordering::Less
    } else {
        core::cmp::Ordering::Greater
    }
}

/// The run of characters other than `sep`, as a predicate value.
pub open spec fn not_sep_pred(sep: char) -> spec_fn(char) -> bool {
    |c: char| c != sep
}

/// The fields obtained by splitting at every occurrence of `sep`, scanning
/// from position `i`.  An empty input yields one empty field, like Rust's
/// own `split`.
pub open spec fn spec_split_at(s: Seq<char>, i: int, sep: char) -> Seq<Seq<char>>
    decreases s.len() - i,
    when 0 <= i <= s.len()
{
    let n = count_while(s, i, not_sep_pred(sep));
    proof {
        lemma_count_while(s, i, not_sep_pred(sep));
    }
    if i + n == s.len() {
        seq![s.subrange(i, s.len() as int)]
    } else {
        seq![s.subrange(i, i + n)] + spec_split_at(s, i + n + 1, sep)
    }
}

/// The fields obtained by splitting the whole sequence at `sep`.
pub open spec fn spec_split(s: Seq<char>, sep: char) -> Seq<Seq<char>> {
    spec_split_at(s, 0, sep)
}

/// The index just past the run of characters other than `sep` starting at
/// `i`.
fn scan_not_char(cs: &Vec<char>, i: usize, sep: char) -> (j: usize)
    requires
        i <= cs@.len(),
    ensures
        j == i + count_while(cs@, i as int, not_sep_pred(sep)),
        i <= j <= cs@.len(),
{
    let mut j = i;
    while j < cs.len() && cs[j] != sep
        invariant
            i <= j <= cs@.len(),
            count_while(cs@, i as int, not_sep_pred(sep)) == (j - i) + count_while(
                cs@,
                j as int,
                not_sep_pred(sep),
            ),
        decreases cs@.len() - j,
    {
        j += 1;
    }
    j
}

/// A copy of the characters from `i` (inclusive) to `j` (exclusive), as a
/// string.
fn copy_range(cs: &Vec<char>, i: usize, j: usize) -> (r: String)
    requires
        i <= j <= cs@.len(),
    ensures
        r@ == cs@.subrange(i as int, j as int),
{
    let mut v: Vec<char> = Vec::new();
    let mut k = i;
    while k < j
        invariant
            i <= k <= j <= cs@.len(),
            v@ == cs@.subrange(i as int, k as int),
        decreases j - k,
    {
        v.push(cs[k]);
        k += 1;
        proof {
            assert(v@ =~= cs@.subrange(i as int, k as int));
        }
    }
    string_from_chars(&v)
}

/// Splits a string at every occurrence of `sep`, as [`spec_split`]
/// defines it.
pub fn split_str(s: &str, sep: char) -> (r: Vec<String>)
    ensures
        r.deep_view() == spec_split(s@, sep),
        r@.len() >= 1,
{
    let cs = chars_of(s);
    let mut parts: Vec<String> = Vec::new();
    let mut i: usize = 0;
    loop
        invariant
            cs@ == s@,
            i <= cs@.len(),
            spec_split(s@, sep) == parts.deep_view() + spec_split_at(cs@, i as int, sep),
        decreases cs@.len() - i,
    {
        let ghost pre = parts.deep_view();
        let j = scan_not_char(&cs, i, sep);
        proof {
            lemma_count_while(cs@, i as int, not_sep_pred(sep));
        }
        if j < cs.len() {
            parts.push(copy_range(&cs, i, j));
            proof {
                assert(parts.deep_view() =~= pre.push(cs@.subrange(i as int, j as int)));
                assert(pre + spec_split_at(cs@, i as int, sep) =~= parts.deep_view()
                    + spec_split_at(cs@, j + 1, sep));
            }
            i = j + 1;
        } else {
            parts.push(copy_range(&cs, i, j));
            proof {
                assert(parts.deep_view() =~= pre.push(cs@.subrange(i as int, j as int)));
                assert(pre + spec_split_at(cs@, i as int, sep) =~= parts.deep_view());
            }
            return parts;
        }
    }
}

/// The parts joined with `sep` between each adjacent pair.
pub open spec fn spec_join(parts: Seq<Seq<char>>, sep: char) -> Seq<char>
    decreases parts.len(),
{
    if parts.len() == 0 {
        Seq::empty()
    } else if parts.len() == 1 {
        parts[0]
    } else {
        parts[0] + seq![sep] + spec_join(parts.drop_first(), sep)
    }
}

/// Appending one more part extends the joined text by a separator and that
/// part.
pub proof fn lemma_join_push(parts: Seq<Seq<char>>, p: Seq<char>, sep: char)
    ensures
        parts.len() == 0 ==> spec_join(parts.push(p), sep) == p,
        parts.len() > 0 ==> spec_join(parts.push(p), sep) == spec_join(parts, sep) + seq![sep]
            + p,
    decreases parts.len(),
{
    if parts.len() == 0 {
        assert(parts.push(p)[0] =~= p);
    } else {
        lemma_join_push(parts.drop_first(), p, sep);
        assert(parts.push(p).drop_first() =~= parts.drop_first().push(p));
        if parts.len() == 1 {
            assert(spec_join(parts.push(p), sep) =~= parts[0] + seq![sep] + p);
            assert(spec_join(parts, sep) == parts[0]);
        } else {
            assert(spec_join(parts.push(p), sep) =~= parts[0] + seq![sep] + (spec_join(
                parts.drop_first(),
                sep,
            ) + seq![sep] + p));
            assert(parts[0] + seq![sep] + (spec_join(parts.drop_first(), sep) + seq![sep] + p)
                =~= (parts[0] + seq![sep] + spec_join(parts.drop_first(), sep)) + seq![sep] + p);
        }
    }
}

/// Joins strings with `sep` between each adjacent pair, as [`spec_join`]
/// defines it.
pub fn join_strings(parts: &Vec<String>, sep: char) -> (r: String)
    ensures
        r@ == spec_join(parts.deep_view(), sep),
{
    let mut r = String::new();
    let mut i: usize = 0;
    let mut sep_vec: Vec<char> = Vec::new();
    sep_vec.push(sep);
    let sep_str = string_from_chars(&sep_vec);
    proof {
        assert(sep_str@ =~= seq![sep]);
    }
    while i < parts.len()
        invariant
            i <= parts@.len(),
            sep_str@ == seq![sep],
            parts.deep_view().len() == parts@.len(),
            r@ == spec_join(parts.deep_view().subrange(0, i as int), sep),
            forall|j: int|
                0 <= j < parts@.len() ==> parts.deep_view()[j] == parts@[j]@,
        decreases parts@.len() - i,
    {
        if i > 0 {
            r.append(sep_str.as_str());
        }
        r.append(parts[i].as_str());
        proof {
            let dv = parts.deep_view();
            lemma_join_push(dv.subrange(0, i as int), dv[i as int], sep);
            assert(dv.subrange(0, i as int).push(dv[i as int]) =~= dv.subrange(0, i + 1));
        }
        i += 1;
    }
    proof {
        assert(parts.deep_view().subrange(0, parts@.len() as int) =~= parts.deep_view());
    }
    r
}

/// The number of whitespace characters ending the sequence.
pub open spec fn count_trailing_spaces(s: Seq<char>) -> int
    decreases s.len(),
{
    if s.len() > 0 && is_space_char(s.last()) {
        1 + count_trailing_spaces(s.drop_last())
    } else {
        0
    }
}

proof fn lemma_count_trailing_spaces(s: Seq<char>)
    ensures
        0 <= count_trailing_spaces(s) <= s.len(),
        forall|j: int| s.len() - count_trailing_spaces(s) <= j < s.len() ==> is_space_char(s[j]),
        s.len() - count_trailing_spaces(s) - 1 >= 0 ==> !is_space_char(
            s[s.len() - count_trailing_spaces(s) - 1],
        ),
    decreases s.len(),
{
    if s.len() > 0 && is_space_char(s.last()) {
        lemma_count_trailing_spaces(s.drop_last());
        assert forall|j: int|
            s.len() - count_trailing_spaces(s) <= j < s.len() implies is_space_char(s[j]) by {
            if j < s.len() - 1 {
                assert(s.drop_last()[j] == s[j]);
            }
        }
        if s.len() - count_trailing_spaces(s) - 1 >= 0 {
            assert(s.drop_last()[s.len() - count_trailing_spaces(s) - 1] == s[s.len()
                - count_trailing_spaces(s) - 1]);
        }
    }
}

/// Whitespace as a predicate value.
pub open spec fn space_pred() -> spec_fn(char) -> bool {
    |c: char| is_space_char(c)
}

/// The sequence with leading and trailing whitespace removed.
pub open spec fn spec_trim(s: Seq<char>) -> Seq<char> {
    let l = count_while(s, 0, space_pred());
    if l == s.len() {
        Seq::empty()
    } else {
        s.subrange(l, s.len() - count_trailing_spaces(s))
    }
}

/// Removes leading and trailing whitespace, as [`spec_trim`] defines it.
pub fn trim_str(s: &str) -> (r: String)
    ensures
        r@ == spec_trim(s@),
{
    let cs = chars_of(s);
    proof {
        lemma_count_while(cs@, 0, space_pred());
    }
    let mut l: usize = 0;
    while l < cs.len() && space_char(cs[l])
        invariant
            l <= cs@.len(),
            count_while(cs@, 0, space_pred()) == l + count_while(cs@, l as int, space_pred()),
        decreases cs@.len() - l,
    {
        l += 1;
    }
    if l == cs.len() {
        let r = String::new();
        proof {
            assert(r@ =~= spec_trim(s@));
        }
        return r;
    }
    proof {
        lemma_count_trailing_spaces(cs@);
    }
    let mut j: usize = cs.len();
    proof {
        assert(cs@.subrange(0, cs@.len() as int) =~= cs@);
    }
    while j > 0 && space_char(cs[j - 1])
        invariant
            j <= cs@.len(),
            count_trailing_spaces(cs@) == (cs@.len() - j) + count_trailing_spaces(
                cs@.subrange(0, j as int),
            ),
        decreases j,
    {
        proof {
            assert(cs@.subrange(0, j as int).drop_last() =~= cs@.subrange(0, j - 1));
        }
        j -= 1;
    }
    proof {
        if j > 0 {
            assert(cs@.subrange(0, j as int).last() == cs@[j - 1]);
        }
        assert(count_trailing_spaces(cs@.subrange(0, j as int)) == 0);
        assert(j == cs@.len() - count_trailing_spaces(cs@));
        assert(l < cs@.len() && !is_space_char(cs@[l as int]));
        if l >= j {
            assert(is_space_char(cs@[l as int]));
        }
    }
    copy_range(&cs, l, j)
}

/// Whether two string slices hold the same characters.
pub fn str_eq_str(a: &str, b: &str) -> (r: bool)
    ensures
        r == (a@ == b@),
{
    let na = a.unicode_len();
    let nb = b.unicode_len();
    if na != nb {
        proof {
            assert(a@.len() != b@.len());
        }
        return false;
    }
    let mut i: usize = 0;
    while i < na
        invariant
            na == a@.len(),
            na == b@.len(),
            i <= na,
            forall|j: int| 0 <= j < i ==> a@[j] == b@[j],
        decreases na - i,
    {
        if a.get_char(i) != b.get_char(i) {
            return false;
        }
        i += 1;
    }
    proof {
        assert(a@ =~= b@);
    }
    true
}

} // verus!
