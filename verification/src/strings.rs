//! Text helpers shared by the schema builder and the parsing engine.
//!
//! Every text is modelled as a `Seq<char>`; a list of texts as a
//! `Seq<Seq<char>>`.
use vstd::prelude::*;

verus! {

/// The texts held by a vector of strings.
pub open spec fn texts(v: Seq<String>) -> Seq<Seq<char>> {
    Seq::new(v.len(), |i: int| v[i]@)
}

/// The texts held by a vector of string slices.
pub open spec fn slice_texts(v: Seq<&'static str>) -> Seq<Seq<char>> {
    Seq::new(v.len(), |i: int| v[i]@)
}

/// The text of an optional string slice.
pub open spec fn slice_text_opt(o: Option<&'static str>) -> Option<Seq<char>> {
    match o {
        Some(s) => Some(s@),
        None => None,
    }
}

/// The text of an optional string.
pub open spec fn text_opt(o: Option<String>) -> Option<Seq<char>> {
    match o {
        Some(s) => Some(s@),
        None => None,
    }
}

/// Number of leading characters of `s` that occur in `strip`.
pub open spec fn prefix_count(s: Seq<char>, strip: Seq<char>) -> nat
    decreases s.len(),
{
    if s.len() > 0 && strip.contains(s[0]) {
        1 + prefix_count(s.skip(1), strip)
    } else {
        0
    }
}

/// `s` without its leading characters that occur in `strip`.
pub open spec fn sort_key(s: Seq<char>, strip: Seq<char>) -> Seq<char> {
    s.skip(prefix_count(s, strip) as int)
}

/// Lexicographic order of two texts by the code points of their characters.
pub open spec fn lex_le(a: Seq<char>, b: Seq<char>) -> bool
    decreases a.len(),
{
    if a.len() == 0 {
        true
    } else if b.len() == 0 {
        false
    } else if a[0] != b[0] {
        (a[0] as u32) < (b[0] as u32)
    } else {
        lex_le(a.skip(1), b.skip(1))
    }
}

/// Order of two texts by their keys: the texts stripped of the leading
/// characters in `strip`.
pub open spec fn key_le(a: Seq<char>, b: Seq<char>, strip: Seq<char>) -> bool {
    lex_le(sort_key(a, strip), sort_key(b, strip))
}

/// Where `x` goes into the sorted list `s`: behind the last item whose key
/// is not greater than that of `x`.
pub open spec fn insert_point(s: Seq<Seq<char>>, x: Seq<char>, strip: Seq<char>) -> int
    decreases s.len(),
{
    if s.len() == 0 || key_le(s.last(), x, strip) {
        s.len() as int
    } else {
        insert_point(s.drop_last(), x, strip)
    }
}

/// The stable sort of `s` by key: each item in turn is put behind the
/// items, already placed, whose keys are not greater than its own.
pub open spec fn sorted_by_key(s: Seq<Seq<char>>, strip: Seq<char>) -> Seq<Seq<char>>
    decreases s.len(),
{
    if s.len() == 0 {
        Seq::empty()
    } else {
        let front = sorted_by_key(s.drop_last(), strip);
        front.insert(insert_point(front, s.last(), strip), s.last())
    }
}

/// The items of `parts` with `sep` between each two neighbours.
pub open spec fn joined(parts: Seq<Seq<char>>, sep: Seq<char>) -> Seq<char>
    decreases parts.len(),
{
    if parts.len() == 0 {
        Seq::empty()
    } else if parts.len() == 1 {
        parts[0]
    } else {
        joined(parts.drop_last(), sep) + sep + parts.last()
    }
}

/// The items of `parts` one after the other.
pub open spec fn concatenated(parts: Seq<Seq<char>>) -> Seq<char> {
    joined(parts, Seq::empty())
}

/// The character of a decimal digit.
pub open spec fn digit_char(d: nat) -> char {
    if d == 0 {
        '0'
    } else if d == 1 {
        '1'
    } else if d == 2 {
        '2'
    } else if d == 3 {
        '3'
    } else if d == 4 {
        '4'
    } else if d == 5 {
        '5'
    } else if d == 6 {
        '6'
    } else if d == 7 {
        '7'
    } else if d == 8 {
        '8'
    } else {
        '9'
    }
}

/// The decimal numeral of `n`, without leading zeros.
pub open spec fn decimal(n: nat) -> Seq<char>
    decreases n,
{
    if n < 10 {
        seq![digit_char(n)]
    } else {
        decimal(n / 10).push(digit_char(n % 10))
    }
}

/// `s` behind as many blanks as bring it to `width` characters.
pub open spec fn padded_left(s: Seq<char>, width: nat) -> Seq<char> {
    if s.len() < width {
        Seq::new((width - s.len()) as nat, |i: int| ' ') + s
    } else {
        s
    }
}

/// `s` without one layer of quotes: where it begins and ends with the same
/// quote character, single or double, the text between the two.
pub open spec fn unquoted(s: Seq<char>) -> Seq<char> {
    if s.len() >= 2 && s[0] == s.last() && (s[0] == '\'' || s[0] == '"') {
        s.subrange(1, s.len() - 1)
    } else {
        s
    }
}

/// Appends one character to a string with `String::push` of the standard
/// library: the string's text grows by exactly that character.
#[verifier::external_body]
pub(crate) fn push_char(s: &mut String, c: char)
    ensures
        final(s)@ == old(s)@.push(c),
{
    s.push(c);
}

/// The characters of `s` as a vector.
pub fn to_chars(s: &str) -> (v: Vec<char>)
    ensures
        v@ == s@,
{
    let mut v: Vec<char> = Vec::new();
    let n: usize = s.unicode_len();
    let mut i: usize = 0;
    while i < n
        invariant
            n == s@.len(),
            i <= n,
            v@ == s@.subrange(0, i as int),
        decreases n - i,
    {
        v.push(s.get_char(i));
        i += 1;
        assert(v@ =~= s@.subrange(0, i as int));
    }
    assert(s@.subrange(0, n as int) =~= s@);
    v
}

/// Whether two string slices hold the same text.
pub fn str_eq(a: &str, b: &str) -> (r: bool)
    ensures
        r == (a@ == b@),
{
    let x = String::from_str(a);
    let y = String::from_str(b);
    x == y
}

/// Whether `s` is one of the first `until` strings of `v`.
pub fn contains_within(v: &Vec<String>, until: usize, s: &str) -> (r: bool)
    requires
        until <= v@.len(),
    ensures
        r == texts(v@).take(until as int).contains(s@),
{
    let mut i: usize = 0;
    while i < until
        invariant
            i <= until <= v@.len(),
            forall|k: int| 0 <= k < i ==> texts(v@).take(until as int)[k] != s@,
        decreases until - i,
    {
        if str_eq(v[i].as_str(), s) {
            assert(texts(v@).take(until as int)[i as int] == s@);
            return true;
        }
        i += 1;
    }
    false
}

/// Whether `s` is one of the strings of `v`.
pub fn contains_text(v: &Vec<String>, s: &str) -> (r: bool)
    ensures
        r == texts(v@).contains(s@),
{
    assert(texts(v@).take(v@.len() as int) =~= texts(v@));
    contains_within(v, v.len(), s)
}

/// Whether `c` is one of the characters of `set`.
pub fn has_char(set: &Vec<char>, c: char) -> (r: bool)
    ensures
        r == set@.contains(c),
{
    let mut i: usize = 0;
    while i < set.len()
        invariant
            i <= set@.len(),
            forall|k: int| 0 <= k < i ==> set@[k] != c,
        decreases set@.len() - i,
    {
        if set[i] == c {
            return true;
        }
        i += 1;
    }
    false
}

/// Counts the leading characters of `s` that occur in `strip`.
pub fn count_prefix(s: &Vec<char>, strip: &Vec<char>) -> (n: usize)
    ensures
        n == prefix_count(s@, strip@),
        n <= s@.len(),
{
    let mut i: usize = 0;
    assert(s@.skip(0) =~= s@);
    while i < s.len() && has_char(strip, s[i])
        invariant
            i <= s@.len(),
            prefix_count(s@, strip@) == i + prefix_count(s@.skip(i as int), strip@),
        decreases s@.len() - i,
    {
        proof {
            assert(s@.skip(i as int)[0] == s@[i as int]);
            assert(s@.skip(i as int).skip(1) =~= s@.skip(i + 1));
        }
        i += 1;
    }
    proof {
        if i < s@.len() {
            assert(s@.skip(i as int)[0] == s@[i as int]);
        }
    }
    i
}

/// Compares two texts from given positions on, character by character.
pub fn lex_le_from(a: &Vec<char>, from_a: usize, b: &Vec<char>, from_b: usize) -> (r: bool)
    requires
        from_a <= a@.len(),
        from_b <= b@.len(),
    ensures
        r == lex_le(a@.skip(from_a as int), b@.skip(from_b as int)),
{
    let mut i: usize = from_a;
    let mut j: usize = from_b;
    while i < a.len() && j < b.len() && a[i] == b[j]
        invariant
            from_a <= i <= a@.len(),
            from_b <= j <= b@.len(),
            lex_le(a@.skip(from_a as int), b@.skip(from_b as int)) == lex_le(
                a@.skip(i as int),
                b@.skip(j as int),
            ),
        decreases a@.len() - i,
    {
        proof {
            assert(a@.skip(i as int)[0] == a@[i as int]);
            assert(b@.skip(j as int)[0] == b@[j as int]);
            assert(a@.skip(i as int).skip(1) =~= a@.skip(i + 1));
            assert(b@.skip(j as int).skip(1) =~= b@.skip(j + 1));
        }
        i += 1;
        j += 1;
    }
    if i >= a.len() {
        true
    } else if j >= b.len() {
        false
    } else {
        proof {
            assert(a@.skip(i as int)[0] == a@[i as int]);
            assert(b@.skip(j as int)[0] == b@[j as int]);
        }
        (a[i] as u32) < (b[j] as u32)
    }
}

/// Whether the key of `a` is not greater than the key of `b`.
pub fn key_not_greater(a: &str, b: &str, strip: &str) -> (r: bool)
    ensures
        r == key_le(a@, b@, strip@),
{
    let ca = to_chars(a);
    let cb = to_chars(b);
    let cs = to_chars(strip);
    let na = count_prefix(&ca, &cs);
    let nb = count_prefix(&cb, &cs);
    lex_le_from(&ca, na, &cb, nb)
}

/// Putting `x` at `pos` is the sorted insertion, where every item from
/// `pos` on has a greater key and the item before `pos`, if any, has not.
pub proof fn lemma_insert_point(s: Seq<Seq<char>>, x: Seq<char>, strip: Seq<char>, pos: int)
    requires
        0 <= pos <= s.len(),
        pos > 0 ==> key_le(s[pos - 1], x, strip),
        forall|k: int| pos <= k < s.len() ==> !key_le(#[trigger] s[k], x, strip),
    ensures
        insert_point(s, x, strip) == pos,
    decreases s.len(),
{
    if s.len() == 0 || pos == s.len() {
    } else {
        assert(!key_le(s[s.len() - 1], x, strip));
        lemma_insert_point(s.drop_last(), x, strip, pos);
    }
}

/// The stable sort of a vector of strings by key: the same strings, with
/// keys that never fall, and strings of equal keys in the order that they
/// had.
pub fn sort_by_key(v: &Vec<String>, strip: &str) -> (out: Vec<String>)
    ensures
        texts(out@) == sorted_by_key(texts(v@), strip@),
        out@.len() == v@.len(),
        ordered_by_key(texts(out@), strip@),
        texts(out@).to_multiset() == texts(v@).to_multiset(),
{
    proof {
        lemma_sorted_by_key_ordered(texts(v@), strip@);
        lemma_sorted_by_key_permutes(texts(v@), strip@);
    }
    let mut out: Vec<String> = Vec::new();
    let mut i: usize = 0;
    assert(texts(v@).take(0) =~= Seq::<Seq<char>>::empty());
    while i < v.len()
        invariant
            i <= v@.len(),
            out@.len() == i,
            texts(out@) == sorted_by_key(texts(v@).take(i as int), strip@),
        decreases v@.len() - i,
    {
        let mut pos: usize = out.len();
        while pos > 0 && !key_not_greater(out[pos - 1].as_str(), v[i].as_str(), strip)
            invariant
                i < v@.len(),
                pos <= out@.len(),
                forall|k: int|
                    pos <= k < out@.len() ==> !key_le(
                        #[trigger] texts(out@)[k],
                        v@[i as int]@,
                        strip@,
                    ),
            decreases pos,
        {
            pos -= 1;
        }
        let ghost before = texts(out@);
        proof {
            lemma_insert_point(before, v@[i as int]@, strip@, pos as int);
            assert(texts(v@).take(i + 1).drop_last() =~= texts(v@).take(i as int));
            assert(texts(v@).take(i + 1).last() == v@[i as int]@);
        }
        out.insert(pos, v[i].clone());
        assert(texts(out@) =~= before.insert(pos as int, v@[i as int]@));
        i += 1;
    }
    assert(texts(v@).take(v@.len() as int) =~= texts(v@));
    out
}

/// Joins the strings of `parts` with `sep` between each two neighbours.
pub fn join(parts: &Vec<String>, sep: &str) -> (s: String)
    ensures
        s@ == joined(texts(parts@), sep@),
{
    let mut s = String::new();
    let mut i: usize = 0;
    assert(texts(parts@).take(0) =~= Seq::<Seq<char>>::empty());
    while i < parts.len()
        invariant
            i <= parts@.len(),
            s@ == joined(texts(parts@).take(i as int), sep@),
        decreases parts@.len() - i,
    {
        proof {
            assert(texts(parts@).take(i + 1).drop_last() =~= texts(parts@).take(i as int));
            assert(texts(parts@).take(i + 1).last() == parts@[i as int]@);
            if i == 0 {
                assert(texts(parts@).take(1)[0] == parts@[0]@);
                assert(Seq::<char>::empty() + parts@[0]@ =~= parts@[0]@);
            }
        }
        if i > 0 {
            s.append(sep);
        }
        s.append(parts[i].as_str());
        i += 1;
    }
    assert(texts(parts@).take(parts@.len() as int) =~= texts(parts@));
    s
}

/// The strings of a vector of string slices.
pub fn to_strings(v: &Vec<&'static str>) -> (out: Vec<String>)
    ensures
        texts(out@) == slice_texts(v@),
        out@.len() == v@.len(),
{
    let mut out: Vec<String> = Vec::new();
    let mut i: usize = 0;
    while i < v.len()
        invariant
            i <= v@.len(),
            out@.len() == i,
            forall|k: int| 0 <= k < i ==> out@[k]@ == v@[k]@,
        decreases v@.len() - i,
    {
        out.push(String::from_str(v[i]));
        i += 1;
    }
    assert(texts(out@) =~= slice_texts(v@));
    out
}

/// The string of an optional string slice.
pub fn to_string_opt(o: Option<&'static str>) -> (r: Option<String>)
    ensures
        text_opt(r) == slice_text_opt(o),
{
    match o {
        Some(s) => Some(String::from_str(s)),
        None => None,
    }
}

/// The character of the decimal digit `d`.
pub fn digit(d: usize) -> (c: char)
    requires
        d < 10,
    ensures
        c == digit_char(d as nat),
{
    if d == 0 {
        '0'
    } else if d == 1 {
        '1'
    } else if d == 2 {
        '2'
    } else if d == 3 {
        '3'
    } else if d == 4 {
        '4'
    } else if d == 5 {
        '5'
    } else if d == 6 {
        '6'
    } else if d == 7 {
        '7'
    } else if d == 8 {
        '8'
    } else {
        '9'
    }
}

/// The decimal numeral of `n`.
pub fn decimal_string(n: usize) -> (s: String)
    ensures
        s@ == decimal(n as nat),
    decreases n,
{
    if n < 10 {
        let mut s = String::new();
        push_char(&mut s, digit(n));
        assert(s@ =~= seq![digit_char(n as nat)]);
        s
    } else {
        let mut s = decimal_string(n / 10);
        push_char(&mut s, digit(n % 10));
        s
    }
}

/// Right-aligns `s` in a column of `width` characters.
pub fn pad_left(s: &str, width: usize) -> (out: String)
    ensures
        out@ == padded_left(s@, width as nat),
{
    let n: usize = s.unicode_len();
    let mut out = String::new();
    if n < width {
        let mut i: usize = 0;
        while i < width - n
            invariant
                n < width,
                i <= width - n,
                out@ == Seq::new(i as nat, |k: int| ' '),
            decreases width - n - i,
        {
            push_char(&mut out, ' ');
            i += 1;
            assert(out@ =~= Seq::new(i as nat, |k: int| ' '));
        }
    }
    assert(Seq::<char>::empty() + s@ =~= s@);
    assert(Seq::new(0 as nat, |k: int| ' ') =~= Seq::<char>::empty());
    out.append(s);
    out
}

/// Strips one layer of matching quotes from a positional token.
pub fn unquote(s: &str) -> (out: String)
    ensures
        out@ == unquoted(s@),
{
    let n: usize = s.unicode_len();
    if n >= 2 {
        let first = s.get_char(0);
        let last = s.get_char(n - 1);
        if first == last && (first == '\'' || first == '"') {
            return String::from_str(s.substring_char(1, n - 1));
        }
    }
    String::from_str(s)
}

/// Of any two texts one is not greater than the other.
pub proof fn lemma_lex_le_total(a: Seq<char>, b: Seq<char>)
    ensures
        lex_le(a, b) || lex_le(b, a),
    decreases a.len(),
{
    if a.len() > 0 && b.len() > 0 {
        if a[0] == b[0] {
            lemma_lex_le_total(a.skip(1), b.skip(1));
        } else {
            vstd::utf8::char_u32_cast(a[0], a[0] as u32);
            vstd::utf8::char_u32_cast(b[0], b[0] as u32);
        }
    }
}

/// The order of texts is transitive.
pub proof fn lemma_lex_le_transitive(a: Seq<char>, b: Seq<char>, c: Seq<char>)
    requires
        lex_le(a, b),
        lex_le(b, c),
    ensures
        lex_le(a, c),
    decreases a.len(),
{
    if a.len() > 0 && b.len() > 0 && c.len() > 0 && a[0] == b[0] && b[0] == c[0] {
        lemma_lex_le_transitive(a.skip(1), b.skip(1), c.skip(1));
    }
}

/// Whether the keys of a list never fall from one item to a later one.
pub open spec fn ordered_by_key(s: Seq<Seq<char>>, strip: Seq<char>) -> bool {
    forall|i: int, j: int| 0 <= i < j < s.len() ==> key_le(#[trigger] s[i], #[trigger] s[j], strip)
}

/// The place of a sorted insertion: the item before it, if any, has a key
/// that is not greater, and every item from it on has a greater key.
pub proof fn lemma_insert_point_bounds(s: Seq<Seq<char>>, x: Seq<char>, strip: Seq<char>)
    ensures
        0 <= insert_point(s, x, strip) <= s.len(),
        insert_point(s, x, strip) > 0 ==> key_le(s[insert_point(s, x, strip) - 1], x, strip),
        forall|k: int|
            insert_point(s, x, strip) <= k < s.len() ==> !key_le(#[trigger] s[k], x, strip),
    decreases s.len(),
{
    if s.len() > 0 && !key_le(s.last(), x, strip) {
        lemma_insert_point_bounds(s.drop_last(), x, strip);
        let p = insert_point(s, x, strip);
        assert forall|k: int| p <= k < s.len() implies !key_le(#[trigger] s[k], x, strip) by {
            if k < s.len() - 1 {
                assert(s.drop_last()[k] == s[k]);
            }
        }
        if p > 0 {
            assert(s.drop_last()[p - 1] == s[p - 1]);
        }
    }
}

/// The sorted list is ordered by key.
pub proof fn lemma_sorted_by_key_ordered(s: Seq<Seq<char>>, strip: Seq<char>)
    ensures
        ordered_by_key(sorted_by_key(s, strip), strip),
    decreases s.len(),
{
    if s.len() > 0 {
        let front = sorted_by_key(s.drop_last(), strip);
        let x = s.last();
        let p = insert_point(front, x, strip);
        let out = front.insert(p, x);
        lemma_sorted_by_key_ordered(s.drop_last(), strip);
        lemma_insert_point_bounds(front, x, strip);
        assert forall|i: int, j: int| 0 <= i < j < out.len() implies key_le(
            #[trigger] out[i],
            #[trigger] out[j],
            strip,
        ) by {
            if j < p {
                assert(out[i] == front[i] && out[j] == front[j]);
            } else if j == p {
                assert(out[i] == front[i]);
                if i < p - 1 {
                    assert(key_le(front[i], front[p - 1], strip));
                    lemma_lex_le_transitive(
                        sort_key(front[i], strip),
                        sort_key(front[p - 1], strip),
                        sort_key(x, strip),
                    );
                }
            } else if i == p {
                assert(out[j] == front[j - 1]);
                assert(!key_le(front[j - 1], x, strip));
                lemma_lex_le_total(sort_key(front[j - 1], strip), sort_key(x, strip));
            } else if i < p {
                assert(out[i] == front[i] && out[j] == front[j - 1]);
            } else {
                assert(out[i] == front[i - 1] && out[j] == front[j - 1]);
            }
        }
    }
}

/// The sorted list holds the items of the list, each as often as the list
/// does.
pub proof fn lemma_sorted_by_key_permutes(s: Seq<Seq<char>>, strip: Seq<char>)
    ensures
        sorted_by_key(s, strip).to_multiset() == s.to_multiset(),
    decreases s.len(),
{
    if s.len() > 0 {
        let front = sorted_by_key(s.drop_last(), strip);
        lemma_sorted_by_key_permutes(s.drop_last(), strip);
        lemma_insert_point_bounds(front, s.last(), strip);
        vstd::seq_lib::to_multiset_insert(front, insert_point(front, s.last(), strip), s.last());
        vstd::seq_lib::to_multiset_build(s.drop_last(), s.last());
        assert(s.drop_last().push(s.last()) =~= s);
        assert(sorted_by_key(s, strip).to_multiset() =~= s.to_multiset());
    } else {
        assert(s =~= Seq::empty());
    }
}

} // verus!
