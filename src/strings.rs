use vstd::prelude::*;
use vstd::std_specs::iter::IteratorSpec;
use vstd::string::{StrSliceExecFns, StringSliceAdditionalSpecFns};

verus! {

broadcast use vstd::string::group_string_axioms;

/// Relies on `String::push`: appends one character at the end.
pub assume_specification[ String::push ](string: &mut String, ch: char)
    ensures
        final(string)@ == old(string)@.push(ch),
;

/// The characters of `s`, in order.
pub fn chars_of(s: &str) -> (v: Vec<char>)
    ensures
        v@ == s@,
{
    let mut it = s.chars();
    let mut v: Vec<char> = Vec::new();
    loop
        invariant
            v@ + it.remaining() == s@,
            it.decrease() is Some,
        ensures
            v@ == s@,
        decreases it.decrease()->0,
    {
        match it.next() {
            Some(c) => {
                v.push(c);
            },
            None => {
                break ;
            },
        }
    }
    v
}

/// A string holding the characters of `cs[from..to]`.
pub fn string_of_chars(cs: &Vec<char>, from: usize, to: usize) -> (r: String)
    requires
        from <= to <= cs@.len(),
    ensures
        r@ == cs@.subrange(from as int, to as int),
{
    let mut r = String::new();
    let mut i = from;
    while i < to
        invariant
            from <= i <= to <= cs@.len(),
            r@ == cs@.subrange(from as int, i as int),
        decreases to - i,
    {
        r.push(cs[i]);
        i += 1;
    }
    r
}

/// The result of upper-casing `s` by the Unicode case mapping.
pub uninterp spec fn upper_of(s: Seq<char>) -> Seq<char>;

/// The result of lower-casing `s` by the Unicode case mapping.
pub uninterp spec fn lower_of(s: Seq<char>) -> Seq<char>;

/// Relies on `str::to_uppercase`: the result depends on the characters
/// alone, and the empty string stays empty.
#[verifier::external_body]
fn upper_case(s: &str) -> (r: String)
    ensures
        r@ == upper_of(s@),
        s@.len() == 0 ==> r@.len() == 0,
{
    s.to_uppercase()
}

/// Relies on `str::to_lowercase`: the result depends on the characters
/// alone, and the empty string stays empty.
#[verifier::external_body]
fn lower_case(s: &str) -> (r: String)
    ensures
        r@ == lower_of(s@),
        s@.len() == 0 ==> r@.len() == 0,
{
    s.to_lowercase()
}

/// Characters with the Unicode `White_Space` property.
pub open spec fn is_white_space(c: char) -> bool {
    let u = c as u32;
    ||| 0x09 <= u <= 0x0D
    ||| u == 0x20
    ||| u == 0x85
    ||| u == 0xA0
    ||| u == 0x1680
    ||| 0x2000 <= u <= 0x200A
    ||| u == 0x2028
    ||| u == 0x2029
    ||| u == 0x202F
    ||| u == 0x205F
    ||| u == 0x3000
}

/// Whether `c` has the Unicode `White_Space` property.
pub fn white_space(c: char) -> (r: bool)
    ensures
        r == is_white_space(c),
{
    let u = c as u32;
    (0x09 <= u && u <= 0x0D) || u == 0x20 || u == 0x85 || u == 0xA0 || u == 0x1680 || (0x2000
        <= u && u <= 0x200A) || u == 0x2028 || u == 0x2029 || u == 0x202F || u == 0x205F || u
        == 0x3000
}

/// Whether every character is white space (true of the empty sequence).
pub open spec fn all_white_space(s: Seq<char>) -> bool {
    forall|i: int| 0 <= i < s.len() ==> is_white_space(#[trigger] s[i])
}

/// Number of white-space characters at the start of `s`.
pub open spec fn leading_space(s: Seq<char>) -> nat
    decreases s.len(),
{
    if s.len() > 0 && is_white_space(s[0]) {
        1 + leading_space(s.drop_first())
    } else {
        0
    }
}

/// Number of white-space characters at the end of `s`.
pub open spec fn trailing_space(s: Seq<char>) -> nat
    decreases s.len(),
{
    if s.len() > 0 && is_white_space(s.last()) {
        1 + trailing_space(s.drop_last())
    } else {
        0
    }
}

/// `s` without its leading white space.
pub open spec fn trimmed_start(s: Seq<char>) -> Seq<char> {
    s.subrange(leading_space(s) as int, s.len() as int)
}

/// `s` without its trailing white space.
pub open spec fn trimmed_end(s: Seq<char>) -> Seq<char> {
    s.subrange(0, s.len() - trailing_space(s))
}

/// `s` without white space at either end.
pub open spec fn trimmed(s: Seq<char>) -> Seq<char> {
    trimmed_end(trimmed_start(s))
}

/// Whether `p` occurs in `s` starting at position `i`.
pub open spec fn occurs_at(s: Seq<char>, p: Seq<char>, i: int) -> bool {
    0 <= i && i + p.len() <= s.len() && s.subrange(i, i + p.len()) == p
}

proof fn lemma_leading_space(s: Seq<char>)
    ensures
        leading_space(s) <= s.len(),
        forall|i: int| 0 <= i < leading_space(s) ==> is_white_space(#[trigger] s[i]),
        leading_space(s) < s.len() ==> !is_white_space(s[leading_space(s) as int]),
    decreases s.len(),
{
    if s.len() > 0 && is_white_space(s[0]) {
        lemma_leading_space(s.drop_first());
        assert forall|i: int| 0 <= i < leading_space(s) implies is_white_space(#[trigger] s[i]) by {
            if i > 0 {
                assert(s[i] == s.drop_first()[i - 1]);
            }
        }
    }
}

proof fn lemma_trailing_space(s: Seq<char>)
    ensures
        trailing_space(s) <= s.len(),
        forall|i: int|
            s.len() - trailing_space(s) <= i < s.len() ==> is_white_space(#[trigger] s[i]),
        trailing_space(s) < s.len() ==> !is_white_space(s[s.len() - trailing_space(s) - 1]),
    decreases s.len(),
{
    if s.len() > 0 && is_white_space(s.last()) {
        lemma_trailing_space(s.drop_last());
        assert forall|i: int|
            s.len() - trailing_space(s) <= i < s.len() implies is_white_space(#[trigger] s[i]) by {
            if i < s.len() - 1 {
                assert(s[i] == s.drop_last()[i]);
            }
        }
    }
}

/// Index of the first non-white-space character, or the length.
fn skip_leading_space(cs: &Vec<char>) -> (i: usize)
    ensures
        i == leading_space(cs@),
        i <= cs@.len(),
{
    proof {
        lemma_leading_space(cs@);
    }
    let mut i: usize = 0;
    while i < cs.len() && white_space(cs[i])
        invariant
            i <= leading_space(cs@),
            leading_space(cs@) <= cs@.len(),
            forall|k: int| 0 <= k < leading_space(cs@) ==> is_white_space(#[trigger] cs@[k]),
            leading_space(cs@) < cs@.len() ==> !is_white_space(cs@[leading_space(cs@) as int]),
        decreases cs@.len() - i,
    {
        i += 1;
    }
    i
}

/// Index just past the last non-white-space character at or after `from`,
/// or `from` when there is none.
fn skip_trailing_space(cs: &Vec<char>, from: usize) -> (j: usize)
    requires
        from <= cs@.len(),
    ensures
        from <= j <= cs@.len(),
        j == from + (cs@.subrange(from as int, cs@.len() as int).len() - trailing_space(
            cs@.subrange(from as int, cs@.len() as int),
        )),
{
    let ghost t = cs@.subrange(from as int, cs@.len() as int);
    proof {
        lemma_trailing_space(t);
    }
    let mut j: usize = cs.len();
    while j > from && white_space(cs[j - 1])
        invariant
            from <= j <= cs@.len(),
            t == cs@.subrange(from as int, cs@.len() as int),
            j >= from + t.len() - trailing_space(t),
            trailing_space(t) <= t.len(),
            forall|i: int| t.len() - trailing_space(t) <= i < t.len() ==> is_white_space(#[trigger] t[i]),
            trailing_space(t) < t.len() ==> !is_white_space(t[t.len() - trailing_space(t) - 1]),
        decreases j,
    {
        assert(cs@[j - 1] == t[j - 1 - from]);
        j -= 1;
    }
    if j > from {
        assert(cs@[j - 1] == t[j - 1 - from]);
    }
    j
}

pub fn is_empty(s: &str) -> (r: bool)
    ensures
        r == (s@.len() == 0),
{
    s.is_empty()
}

/// Whether `s` holds nothing but white space.
pub fn is_blank(s: &str) -> (r: bool)
    ensures
        r == all_white_space(s@),
{
    let cs = chars_of(s);
    let mut i: usize = 0;
    while i < cs.len()
        invariant
            cs@ == s@,
            i <= cs@.len(),
            forall|k: int| 0 <= k < i ==> is_white_space(#[trigger] cs@[k]),
        decreases cs@.len() - i,
    {
        if !white_space(cs[i]) {
            return false;
        }
        i += 1;
    }
    true
}

pub fn to_uppercase(s: &str) -> (r: String)
    ensures
        r@ == upper_of(s@),
{
    upper_case(s)
}

pub fn to_lowercase(s: &str) -> (r: String)
    ensures
        r@ == lower_of(s@),
{
    lower_case(s)
}

/// `s` without leading or trailing white space.
pub fn trim(s: &str) -> (r: &str)
    ensures
        r@ == trimmed(s@),
{
    let cs = chars_of(s);
    let i = skip_leading_space(&cs);
    let j = skip_trailing_space(&cs, i);
    proof {
        lemma_leading_space(s@);
    }
    assert(trimmed_start(s@) =~= cs@.subrange(i as int, cs@.len() as int));
    let r = s.substring_char(i, j);
    assert(r@ =~= trimmed(s@));
    r
}

/// `s` without leading white space.
pub fn trim_start(s: &str) -> (r: &str)
    ensures
        r@ == trimmed_start(s@),
{
    let cs = chars_of(s);
    let i = skip_leading_space(&cs);
    proof {
        lemma_leading_space(s@);
    }
    s.substring_char(i, cs.len())
}

/// `s` without trailing white space.
pub fn trim_end(s: &str) -> (r: &str)
    ensures
        r@ == trimmed_end(s@),
{
    let cs = chars_of(s);
    let j = skip_trailing_space(&cs, 0);
    assert(cs@.subrange(0, cs@.len() as int) =~= cs@);
    s.substring_char(0, j)
}

/// The characters of `s` in reverse order.
pub fn reverse(s: &str) -> (r: String)
    ensures
        r@ == s@.reverse(),
{
    let cs = chars_of(s);
    let mut r = String::new();
    let mut i = cs.len();
    while i > 0
        invariant
            i <= cs@.len(),
            cs@ == s@,
            r@ =~= s@.reverse().subrange(0, (cs@.len() - i) as int),
        decreases i,
    {
        i -= 1;
        r.push(cs[i]);
    }
    r
}

/// Whether `p` occurs in `cs` at position `i`.
fn occurs_at_exec(cs: &Vec<char>, p: &Vec<char>, i: usize) -> (r: bool)
    ensures
        r == occurs_at(cs@, p@, i as int),
{
    if i > cs.len() || p.len() > cs.len() - i {
        return false;
    }
    let mut k: usize = 0;
    while k < p.len()
        invariant
            i + p@.len() <= cs.len(),
            k <= p@.len(),
            forall|m: int| 0 <= m < k ==> cs@[i + m] == p@[m],
        decreases p@.len() - k,
    {
        if cs[i + k] != p[k] {
            assert(cs@.subrange(i as int, i + p@.len())[k as int] != p@[k as int]);
            return false;
        }
        k += 1;
    }
    assert(cs@.subrange(i as int, i + p@.len()) =~= p@);
    true
}

/// Whether `pattern` occurs anywhere in `s` (the empty pattern always does).
pub fn contains(s: &str, pattern: &str) -> (r: bool)
    ensures
        r == exists|i: int| occurs_at(s@, pattern@, i),
{
    let cs = chars_of(s);
    let p = chars_of(pattern);
    if p.len() > cs.len() {
        return false;
    }
    let limit = cs.len() - p.len();
    let mut i: usize = 0;
    loop
        invariant
            cs@ == s@,
            p@ == pattern@,
            limit == cs@.len() - p@.len(),
            i <= limit,
            forall|k: int| 0 <= k < i ==> !occurs_at(s@, pattern@, k),
        decreases limit - i,
    {
        if occurs_at_exec(&cs, &p, i) {
            return true;
        }
        if i == limit {
            assert forall|k: int| !occurs_at(s@, pattern@, k) by {
                if k >= 0 && k < i {
                }
            }
            return false;
        }
        i += 1;
    }
}

pub fn starts_with(s: &str, prefix: &str) -> (r: bool)
    ensures
        r == occurs_at(s@, prefix@, 0),
{
    let cs = chars_of(s);
    let p = chars_of(prefix);
    occurs_at_exec(&cs, &p, 0)
}

pub fn ends_with(s: &str, suffix: &str) -> (r: bool)
    ensures
        r == (suffix@.len() <= s@.len() && occurs_at(s@, suffix@, s@.len() - suffix@.len())),
{
    let cs = chars_of(s);
    let p = chars_of(suffix);
    if p.len() > cs.len() {
        return false;
    }
    occurs_at_exec(&cs, &p, cs.len() - p.len())
}

/// Length of `s` in bytes of UTF-8.
pub fn length(s: &str) -> (r: usize)
    ensures
        r == s.spec_bytes().len() as usize,
{
    s.len()
}

pub fn is_empty_str(s: &str) -> (r: bool)
    ensures
        r == (s@.len() == 0),
{
    s.is_empty()
}

pub fn is_not_empty(s: &str) -> (r: bool)
    ensures
        r == (s@.len() != 0),
{
    !s.is_empty()
}

proof fn lemma_boundary_in_prefix(chars: Seq<char>, end: int, start: int)
    requires
        0 <= start <= end <= vstd::utf8::encode_utf8(chars).len(),
        vstd::utf8::is_char_boundary(vstd::utf8::encode_utf8(chars), start),
        vstd::utf8::is_char_boundary(vstd::utf8::encode_utf8(chars), end),
    ensures
        vstd::utf8::is_char_boundary(vstd::utf8::encode_utf8(chars).subrange(0, end), start),
{
    let bytes = vstd::utf8::encode_utf8(chars);
    vstd::utf8::encode_utf8_valid_utf8(chars);
    vstd::utf8::valid_utf8_split(bytes, end);
    let head = bytes.subrange(0, end);
    if start == end {
        vstd::utf8::is_char_boundary_start_end_of_seq(head);
    } else {
        vstd::utf8::is_char_boundary_iff_not_is_continuation_byte(bytes, start);
        vstd::utf8::is_char_boundary_iff_not_is_continuation_byte(head, start);
    }
}

/// The bytes `start..end` of `s`; both must fall on character boundaries.
pub fn substring(s: &str, start: usize, end: usize) -> (r: &str)
    requires
        start <= end <= s.spec_bytes().len(),
        vstd::utf8::is_char_boundary(s.spec_bytes(), start as int),
        vstd::utf8::is_char_boundary(s.spec_bytes(), end as int),
    ensures
        r.spec_bytes() == s.spec_bytes().subrange(start as int, end as int),
{
    let (head, _) = s.split_at(end);
    proof {
        lemma_boundary_in_prefix(s@, end as int, start as int);
    }
    let (_, r) = head.split_at(start);
    assert(r.spec_bytes() =~= s.spec_bytes().subrange(start as int, end as int));
    r
}

/// `s` with each non-overlapping occurrence of `from`, taken left to right,
/// replaced by `to`; an empty `from` matches before every character and at
/// the end.
pub open spec fn replaced(s: Seq<char>, from: Seq<char>, to: Seq<char>) -> Seq<char>
    decreases s.len(),
{
    if s.len() == 0 {
        if from.len() == 0 {
            to
        } else {
            s
        }
    } else if from.len() == 0 {
        to + seq![s[0]] + replaced(s.drop_first(), from, to)
    } else if occurs_at(s, from, 0) {
        to + replaced(s.subrange(from.len() as int, s.len() as int), from, to)
    } else {
        seq![s[0]] + replaced(s.drop_first(), from, to)
    }
}

/// The pieces of `s` between non-overlapping occurrences of a non-empty
/// delimiter, taken left to right.
pub open spec fn split_pieces(s: Seq<char>, d: Seq<char>) -> Seq<Seq<char>>
    recommends
        d.len() > 0,
    decreases s.len(),
{
    if s.len() == 0 || d.len() == 0 {
        seq![s]
    } else if occurs_at(s, d, 0) {
        seq![Seq::empty()] + split_pieces(s.subrange(d.len() as int, s.len() as int), d)
    } else {
        let rest = split_pieces(s.drop_first(), d);
        rest.update(0, seq![s[0]] + rest[0])
    }
}

/// The pieces of `s` split by `d`: with an empty delimiter, an empty piece,
/// then each character on its own, then an empty piece.
pub open spec fn split_spec(s: Seq<char>, d: Seq<char>) -> Seq<Seq<char>> {
    if d.len() == 0 {
        seq![Seq::<char>::empty()] + Seq::new(s.len(), |i: int| seq![s[i]]) + seq![
            Seq::<char>::empty(),
        ]
    } else {
        split_pieces(s, d)
    }
}

/// The views of a sequence of strings.
pub open spec fn string_views(v: Seq<String>) -> Seq<Seq<char>> {
    v.map_values(|x: String| x@)
}

/// The views of a sequence of string slices.
pub open spec fn str_views(v: Seq<&str>) -> Seq<Seq<char>> {
    v.map_values(|x: &str| x@)
}

/// The parts joined in order with `d` between each two.
pub open spec fn joined(parts: Seq<Seq<char>>, d: Seq<char>) -> Seq<char>
    decreases parts.len(),
{
    if parts.len() == 0 {
        Seq::empty()
    } else if parts.len() == 1 {
        parts[0]
    } else {
        joined(parts.drop_last(), d) + d + parts.last()
    }
}

/// `s` written `n` times in a row.
pub open spec fn repeated(s: Seq<char>, n: nat) -> Seq<char>
    decreases n,
{
    if n == 0 {
        Seq::empty()
    } else {
        repeated(s, (n - 1) as nat) + s
    }
}

proof fn lemma_split_pieces_nonempty(s: Seq<char>, d: Seq<char>)
    ensures
        split_pieces(s, d).len() >= 1,
    decreases s.len(),
{
    if s.len() == 0 || d.len() == 0 {
    } else if occurs_at(s, d, 0) {
        lemma_split_pieces_nonempty(s.subrange(d.len() as int, s.len() as int), d);
    } else {
        lemma_split_pieces_nonempty(s.drop_first(), d);
    }
}

proof fn lemma_occurs_in_suffix(s: Seq<char>, p: Seq<char>, i: int)
    requires
        0 <= i <= s.len(),
    ensures
        occurs_at(s.subrange(i, s.len() as int), p, 0) == occurs_at(s, p, i),
{
    let t = s.subrange(i, s.len() as int);
    if i + p.len() <= s.len() {
        assert(t.subrange(0, p.len() as int) =~= s.subrange(i, i + p.len()));
    }
}

/// Appends the characters `cs[from..to]` to `r`.
fn push_chars(r: &mut String, cs: &Vec<char>, from: usize, to: usize)
    requires
        from <= to <= cs@.len(),
    ensures
        final(r)@ == old(r)@ + cs@.subrange(from as int, to as int),
{
    let mut i = from;
    while i < to
        invariant
            from <= i <= to <= cs@.len(),
            r@ == old(r)@ + cs@.subrange(from as int, i as int),
        decreases to - i,
    {
        r.push(cs[i]);
        i += 1;
        assert(r@ =~= old(r)@ + cs@.subrange(from as int, i as int));
    }
}

/// `s` with every non-overlapping occurrence of `from`, left to right,
/// replaced by `to`.
pub fn replace(s: &str, from: &str, to: &str) -> (r: String)
    ensures
        r@ == replaced(s@, from@, to@),
{
    let cs = chars_of(s);
    let f = chars_of(from);
    let t = chars_of(to);
    let n = cs.len();
    let mut r = String::new();
    let mut i: usize = 0;
    assert(s@.subrange(0, n as int) =~= s@);
    assert(r@ + replaced(s@, from@, to@) =~= replaced(s@, from@, to@));
    while i < n
        invariant
            cs@ == s@,
            f@ == from@,
            t@ == to@,
            n == cs@.len(),
            i <= n,
            replaced(s@, from@, to@) == r@ + replaced(s@.subrange(i as int, n as int), from@, to@),
        decreases n - i,
    {
        let ghost rest = s@.subrange(i as int, n as int);
        assert(rest.drop_first() =~= s@.subrange(i + 1, n as int));
        assert(rest[0] == cs@[i as int]);
        if f.len() == 0 {
            push_chars(&mut r, &t, 0, t.len());
            r.push(cs[i]);
            assert(t@.subrange(0, t@.len() as int) =~= t@);
            i += 1;
        } else if occurs_at_exec(&cs, &f, i) {
            proof {
                lemma_occurs_in_suffix(s@, from@, i as int);
                assert(rest.subrange(from@.len() as int, rest.len() as int) =~= s@.subrange(
                    i + from@.len(),
                    n as int,
                ));
            }
            push_chars(&mut r, &t, 0, t.len());
            assert(t@.subrange(0, t@.len() as int) =~= t@);
            i += f.len();
        } else {
            proof {
                lemma_occurs_in_suffix(s@, from@, i as int);
            }
            r.push(cs[i]);
            i += 1;
        }
    }
    if f.len() == 0 {
        push_chars(&mut r, &t, 0, t.len());
        assert(t@.subrange(0, t@.len() as int) =~= t@);
    }
    assert(s@.subrange(n as int, n as int) =~= Seq::<char>::empty());
    r
}

/// The pieces of `s` between occurrences of `delimiter`; an empty delimiter
/// gives an empty piece, each character, and an empty piece.
pub fn split(s: &str, delimiter: &str) -> (r: Vec<String>)
    ensures
        string_views(r@) == split_spec(s@, delimiter@),
{
    let cs = chars_of(s);
    let d = chars_of(delimiter);
    let n = cs.len();
    let mut pieces: Vec<String> = Vec::new();
    if d.len() == 0 {
        pieces.push(String::new());
        assert(string_views(pieces@) =~= seq![Seq::<char>::empty()]);
        let mut i: usize = 0;
        while i < n
            invariant
                cs@ == s@,
                n == cs@.len(),
                i <= n,
                string_views(pieces@) =~= seq![Seq::<char>::empty()] + Seq::new(
                    i as nat,
                    |k: int| seq![s@[k]],
                ),
            decreases n - i,
        {
            let c = string_of_chars(&cs, i, i + 1);
            assert(c@ =~= seq![s@[i as int]]);
            let ghost before = pieces@;
            pieces.push(c);
            assert(pieces@ =~= before.push(c));
            assert(string_views(pieces@) =~= string_views(before).push(c@));
            i += 1;
        }
        let ghost before = pieces@;
        let empty = String::new();
        pieces.push(empty);
        assert(pieces@ =~= before.push(empty));
        assert(string_views(pieces@) =~= string_views(before).push(Seq::<char>::empty()));
        assert(string_views(pieces@) =~= split_spec(s@, delimiter@));
        return pieces;
    }
    let mut start: usize = 0;
    let mut i: usize = 0;
    assert(string_views(pieces@) =~= Seq::<Seq<char>>::empty());
    proof {
        lemma_split_pieces_nonempty(s@, delimiter@);
        assert(s@.subrange(0, n as int) =~= s@);
        assert(s@.subrange(0, 0) =~= Seq::<char>::empty());
        let all = split_pieces(s@, delimiter@);
        assert(all.update(0, Seq::<char>::empty() + all[0]) =~= all);
    }
    while i < n
        invariant
            cs@ == s@,
            d@ == delimiter@,
            d@.len() > 0,
            n == cs@.len(),
            start <= i <= n,
            split_pieces(s@, d@) == string_views(pieces@) + {
                let rest = split_pieces(s@.subrange(i as int, n as int), d@);
                rest.update(0, s@.subrange(start as int, i as int) + rest[0])
            },
        decreases n - i,
    {
        let ghost rest = s@.subrange(i as int, n as int);
        let ghost cur = s@.subrange(start as int, i as int);
        proof {
            lemma_occurs_in_suffix(s@, d@, i as int);
        }
        if occurs_at_exec(&cs, &d, i) {
            let ghost after = s@.subrange(i + d@.len(), n as int);
            assert(rest.subrange(d@.len() as int, rest.len() as int) =~= after);
            let piece = string_of_chars(&cs, start, i);
            let ghost before = pieces@;
            pieces.push(piece);
            assert(pieces@ =~= before.push(piece));
            assert(string_views(pieces@) =~= string_views(before) + seq![cur]);
            i += d.len();
            start = i;
            proof {
                lemma_split_pieces_nonempty(after, d@);
                let tail = split_pieces(after, d@);
                assert(s@.subrange(start as int, i as int) =~= Seq::<char>::empty());
                assert(tail.update(0, Seq::<char>::empty() + tail[0]) =~= tail);
                assert((seq![Seq::<char>::empty()] + tail).update(0, cur + Seq::<char>::empty())
                    =~= seq![cur] + tail);
            }
        } else {
            let ghost after = s@.subrange(i + 1, n as int);
            assert(rest.drop_first() =~= after);
            assert(rest[0] == s@[i as int]);
            i += 1;
            proof {
                lemma_split_pieces_nonempty(after, d@);
                let tail = split_pieces(after, d@);
                assert(s@.subrange(start as int, i as int) =~= cur + seq![s@[i - 1]]);
                let c = s@[i - 1];
                let big = tail.update(0, seq![c] + tail[0]);
                assert(split_pieces(rest, d@) == big);
                assert(big[0] == seq![c] + tail[0]);
                assert(cur + (seq![c] + tail[0]) =~= (cur + seq![c]) + tail[0]);
                assert(big.update(0, cur + big[0]) =~= tail.update(0, (cur + seq![c]) + tail[0]));
            }
        }
    }
    let last = string_of_chars(&cs, start, n);
    let ghost before_pieces = pieces@;
    let ghost before = string_views(pieces@);
    pieces.push(last);
    assert(pieces@ =~= before_pieces.push(last));
    proof {
        assert(s@.subrange(n as int, n as int) =~= Seq::<char>::empty());
        let tail = split_pieces(Seq::<char>::empty(), d@);
        assert(tail =~= seq![Seq::<char>::empty()]);
        assert(tail.update(0, s@.subrange(start as int, n as int) + tail[0]) =~= seq![
            s@.subrange(start as int, n as int),
        ]);
        assert(string_views(pieces@) =~= before + seq![s@.subrange(start as int, n as int)]);
    }
    pieces
}

/// The strings joined in order with `delimiter` between each two.
pub fn join(strings: &[&str], delimiter: &str) -> (r: String)
    ensures
        r@ == joined(str_views(strings@), delimiter@),
{
    let d = chars_of(delimiter);
    let mut r = String::new();
    let mut i: usize = 0;
    while i < strings.len()
        invariant
            d@ == delimiter@,
            i <= strings@.len(),
            r@ == joined(str_views(strings@.subrange(0, i as int)), delimiter@),
        decreases strings@.len() - i,
    {
        let ghost prev = str_views(strings@.subrange(0, i as int));
        if i > 0 {
            push_chars(&mut r, &d, 0, d.len());
            assert(d@.subrange(0, d@.len() as int) =~= d@);
        }
        let part = chars_of(strings[i]);
        push_chars(&mut r, &part, 0, part.len());
        assert(part@.subrange(0, part@.len() as int) =~= part@);
        let ghost next = str_views(strings@.subrange(0, i + 1));
        assert(next.drop_last() =~= prev);
        assert(next.last() == strings@[i as int]@);
        i += 1;
    }
    assert(strings@.subrange(0, strings@.len() as int) =~= strings@);
    r
}

/// `s` written `count` times in a row.
pub fn repeat(s: &str, count: usize) -> (r: String)
    ensures
        r@ == repeated(s@, count as nat),
{
    let cs = chars_of(s);
    let mut r = String::new();
    let mut i: usize = 0;
    while i < count
        invariant
            cs@ == s@,
            i <= count,
            r@ == repeated(s@, i as nat),
        decreases count - i,
    {
        push_chars(&mut r, &cs, 0, cs.len());
        assert(cs@.subrange(0, cs@.len() as int) =~= cs@);
        i += 1;
    }
    r
}

} // verus!
