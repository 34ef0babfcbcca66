//! Character-level string helpers shared by the parsers.
use vstd::prelude::*;

verus! {

/// Unicode `White_Space` property, as `char::is_whitespace` documents it.
pub open spec fn is_white_space(c: char) -> bool {
    ||| ('\u{9}' <= c && c <= '\u{d}')
    ||| c == ' '
    ||| c == '\u{85}'
    ||| c == '\u{a0}'
    ||| c == '\u{1680}'
    ||| ('\u{2000}' <= c && c <= '\u{200a}')
    ||| c == '\u{2028}'
    ||| c == '\u{2029}'
    ||| c == '\u{202f}'
    ||| c == '\u{205f}'
    ||| c == '\u{3000}'
}

/// ASCII lower-case mapping; every other character is left alone.
pub open spec fn ascii_lower(c: char) -> char {
    if 'A' <= c && c <= 'Z' {
        ((c as u32) + 32) as char
    } else {
        c
    }
}

/// Equality of two character sequences up to ASCII case.
pub open spec fn eq_ignore_ascii_case(a: Seq<char>, b: Seq<char>) -> bool {
    &&& a.len() == b.len()
    &&& forall|i: int| 0 <= i < a.len() ==> #[trigger] ascii_lower(a[i]) == ascii_lower(b[i])
}

/// `s` with every ASCII upper-case letter lowered.
pub open spec fn lower_ascii(s: Seq<char>) -> Seq<char> {
    s.map_values(|c: char| ascii_lower(c))
}

/// A word without ASCII upper-case letters.
pub open spec fn is_lower_word(word: Seq<char>) -> bool {
    forall|i: int| 0 <= i < word.len() ==> !('A' <= #[trigger] word[i] && word[i] <= 'Z')
}

/// A name that equals a lower-case word up to ASCII case lowers to that word.
pub proof fn lemma_lower_ascii_of_match(name: Seq<char>, word: Seq<char>)
    requires
        eq_ignore_ascii_case(name, word),
        is_lower_word(word),
    ensures
        lower_ascii(name) == word,
{
    assert forall|i: int| 0 <= i < name.len() implies #[trigger] lower_ascii(name)[i] == word[i] by {
        assert(ascii_lower(name[i]) == ascii_lower(word[i]));
    }
    assert(lower_ascii(name) =~= word);
}

pub fn is_white_space_char(c: char) -> (r: bool)
    ensures
        r == is_white_space(c),
{
    ('\u{9}' <= c && c <= '\u{d}') || c == ' ' || c == '\u{85}' || c == '\u{a0}' || c
        == '\u{1680}' || ('\u{2000}' <= c && c <= '\u{200a}') || c == '\u{2028}' || c
        == '\u{2029}' || c == '\u{202f}' || c == '\u{205f}' || c == '\u{3000}'
}

pub fn ascii_lower_char(c: char) -> (r: char)
    ensures
        r == ascii_lower(c),
{
    if 'A' <= c && c <= 'Z' {
        let b: u8 = c as u8;
        (b + 32) as char
    } else {
        c
    }
}

/// The characters of `s`, in order.
pub fn chars_of(s: &str) -> (v: Vec<char>)
    ensures
        v@ == s@,
{
    let mut v: Vec<char> = Vec::new();
    for c in it: s.chars()
        invariant
            v@ == it.seq().subrange(0, it.index() as int),
            it.seq() == s@,
    {
        v.push(c);
    }
    v
}


/// Builds a `String` from characters through std's `FromIterator<char>`;
/// the contract claims the string holds exactly those characters, in order.
#[verifier::external_body]
pub(crate) fn string_from_chars(v: &[char]) -> (s: String)
    ensures
        s@ == v@,
{
    v.iter().collect()
}

/// Whether two character vectors hold the same characters.
pub fn chars_equal(a: &[char], b: &[char]) -> (r: bool)
    ensures
        r == (a@ == b@),
{
    if a.len() != b.len() {
        return false;
    }
    let mut i: usize = 0;
    while i < a.len()
        invariant
            a@.len() == b@.len(),
            i <= a@.len(),
            forall|j: int| 0 <= j < i ==> a@[j] == b@[j],
        decreases a@.len() - i,
    {
        if a[i] != b[i] {
            return false;
        }
        i += 1;
    }
    assert(a@ =~= b@);
    true
}

/// Whether two strings hold the same characters.
pub fn str_equal(a: &str, b: &str) -> (r: bool)
    ensures
        r == (a@ == b@),
{
    let x = chars_of(a);
    let y = chars_of(b);
    chars_equal(x.as_slice(), y.as_slice())
}

/// Whether two character slices are equal up to ASCII case.
pub fn chars_eq_ignore_ascii_case(a: &[char], b: &[char]) -> (r: bool)
    ensures
        r == eq_ignore_ascii_case(a@, b@),
{
    if a.len() != b.len() {
        return false;
    }
    let mut i: usize = 0;
    while i < a.len()
        invariant
            a@.len() == b@.len(),
            i <= a@.len(),
            forall|j: int| 0 <= j < i ==> #[trigger] ascii_lower(a@[j]) == ascii_lower(b@[j]),
        decreases a@.len() - i,
    {
        if ascii_lower_char(a[i]) != ascii_lower_char(b[i]) {
            return false;
        }
        i += 1;
    }
    true
}

/// Whether two strings are equal up to ASCII case (`str::eq_ignore_ascii_case`).
pub fn str_eq_ignore_ascii_case(a: &str, b: &str) -> (r: bool)
    ensures
        r == eq_ignore_ascii_case(a@, b@),
{
    let x = chars_of(a);
    let y = chars_of(b);
    chars_eq_ignore_ascii_case(x.as_slice(), y.as_slice())
}

/// The characters that a trim removes: white space, or else the two
/// quotation marks `'` and `"`.
pub open spec fn in_trim_set(c: char, quotes: bool) -> bool {
    if quotes {
        c == '\'' || c == '"'
    } else {
        is_white_space(c)
    }
}

/// `s` without its leading characters of the trim set.
pub open spec fn strip_start(s: Seq<char>, quotes: bool) -> Seq<char>
    decreases s.len(),
{
    if s.len() > 0 && in_trim_set(s[0], quotes) {
        strip_start(s.drop_first(), quotes)
    } else {
        s
    }
}

/// `s` without its trailing characters of the trim set.
pub open spec fn strip_end(s: Seq<char>, quotes: bool) -> Seq<char>
    decreases s.len(),
{
    if s.len() > 0 && in_trim_set(s.last(), quotes) {
        strip_end(s.drop_last(), quotes)
    } else {
        s
    }
}

/// `s` without leading and trailing white space (`str::trim`).
pub open spec fn trim(s: Seq<char>) -> Seq<char> {
    strip_end(strip_start(s, false), false)
}

/// `s` without trailing white space (`str::trim_end`).
pub open spec fn trim_end(s: Seq<char>) -> Seq<char> {
    strip_end(s, false)
}

/// `s` without leading and trailing quotation marks
/// (`str::trim_matches(['\'', '"'])`).
pub open spec fn trim_quotes(s: Seq<char>) -> Seq<char> {
    strip_end(strip_start(s, true), true)
}

proof fn lemma_strip_start_skip(s: Seq<char>, a: int, quotes: bool)
    requires
        0 <= a <= s.len(),
        forall|j: int| 0 <= j < a ==> in_trim_set(#[trigger] s[j], quotes),
        a == s.len() || !in_trim_set(s[a], quotes),
    ensures
        strip_start(s, quotes) == s.skip(a),
    decreases a,
{
    if a == 0 {
        assert(s.skip(0) =~= s);
    } else {
        assert(in_trim_set(s[0], quotes));
        let t = s.drop_first();
        assert forall|j: int| 0 <= j < a - 1 implies in_trim_set(#[trigger] t[j], quotes) by {
            assert(t[j] == s[j + 1]);
        }
        lemma_strip_start_skip(t, a - 1, quotes);
        assert(t.skip(a - 1) =~= s.skip(a));
    }
}

proof fn lemma_strip_end_take(s: Seq<char>, b: int, quotes: bool)
    requires
        0 <= b <= s.len(),
        forall|j: int| b <= j < s.len() ==> in_trim_set(#[trigger] s[j], quotes),
        b == 0 || !in_trim_set(s[b - 1], quotes),
    ensures
        strip_end(s, quotes) == s.take(b),
    decreases s.len() - b,
{
    if b == s.len() {
        assert(s.take(b) =~= s);
    } else {
        assert(in_trim_set(s.last(), quotes));
        let t = s.drop_last();
        assert forall|j: int| b <= j < t.len() implies in_trim_set(#[trigger] t[j], quotes) by {
            assert(t[j] == s[j]);
        }
        lemma_strip_end_take(t, b, quotes);
        assert(t.take(b) =~= s.take(b));
    }
}

fn in_trim_set_char(c: char, quotes: bool) -> (r: bool)
    ensures
        r == in_trim_set(c, quotes),
{
    if quotes {
        c == '\'' || c == '"'
    } else {
        is_white_space_char(c)
    }
}

/// The characters of `s` without the leading and trailing characters of
/// the trim set.
pub fn strip_chars(s: &[char], quotes: bool) -> (r: Vec<char>)
    ensures
        r@ == strip_end(strip_start(s@, quotes), quotes),
{
    let n = s.len();
    let mut a: usize = 0;
    while a < n && in_trim_set_char(s[a], quotes)
        invariant
            n == s@.len(),
            a <= n,
            forall|j: int| 0 <= j < a ==> in_trim_set(#[trigger] s@[j], quotes),
        decreases n - a,
    {
        a += 1;
    }
    proof {
        lemma_strip_start_skip(s@, a as int, quotes);
    }
    let ghost t = s@.skip(a as int);
    let mut b: usize = n;
    while b > a && in_trim_set_char(s[b - 1], quotes)
        invariant
            n == s@.len(),
            a <= b <= n,
            forall|j: int| b <= j < n ==> in_trim_set(#[trigger] s@[j], quotes),
        decreases b,
    {
        b -= 1;
    }
    proof {
        assert forall|j: int| b - a <= j < t.len() implies in_trim_set(#[trigger] t[j], quotes) by {
            assert(t[j] == s@[j + a]);
        }
        if b > a {
            assert(t[b - a - 1] == s@[b - 1]);
        }
        lemma_strip_end_take(t, b - a, quotes);
    }
    let mut r: Vec<char> = Vec::new();
    let mut i: usize = a;
    while i < b
        invariant
            a <= i <= b <= n,
            n == s@.len(),
            r@ == s@.subrange(a as int, i as int),
        decreases b - i,
    {
        r.push(s[i]);
        i += 1;
    }
    assert(r@ =~= t.take(b - a));
    r
}

/// The characters of `s` without leading and trailing white space.
pub fn trim_chars(s: &[char]) -> (r: Vec<char>)
    ensures
        r@ == trim(s@),
{
    strip_chars(s, false)
}

/// The characters of `s` without trailing white space.
pub fn trim_end_chars(s: &[char]) -> (r: Vec<char>)
    ensures
        r@ == trim_end(s@),
{
    let n = s.len();
    let mut b: usize = n;
    while b > 0 && is_white_space_char(s[b - 1])
        invariant
            n == s@.len(),
            b <= n,
            forall|j: int| b <= j < n ==> in_trim_set(#[trigger] s@[j], false),
        decreases b,
    {
        b -= 1;
    }
    proof {
        lemma_strip_end_take(s@, b as int, false);
    }
    let mut r: Vec<char> = Vec::new();
    let mut i: usize = 0;
    while i < b
        invariant
            i <= b <= n,
            n == s@.len(),
            r@ == s@.take(i as int),
        decreases b - i,
    {
        r.push(s[i]);
        i += 1;
        assert(r@ =~= s@.take(i as int));
    }
    r
}

/// The pieces of `s` between occurrences of `sep` (`str::split` by a
/// character): always at least one piece.
pub open spec fn split_at_char(s: Seq<char>, sep: char) -> Seq<Seq<char>>
    decreases s.len(),
{
    if s.len() == 0 {
        seq![Seq::empty()]
    } else {
        let rest = split_at_char(s.drop_last(), sep);
        if s.last() == sep {
            rest.push(Seq::empty())
        } else {
            rest.update(rest.len() - 1, rest.last().push(s.last()))
        }
    }
}

pub proof fn lemma_split_at_char_nonempty(s: Seq<char>, sep: char)
    ensures
        split_at_char(s, sep).len() >= 1,
    decreases s.len(),
{
    if s.len() > 0 {
        lemma_split_at_char_nonempty(s.drop_last(), sep);
    }
}

/// The pieces of `s` between occurrences of `sep`.
pub fn split_chars_at(s: &[char], sep: char) -> (r: Vec<Vec<char>>)
    ensures
        r@.map_values(|p: Vec<char>| p@) == split_at_char(s@, sep),
        r@.len() >= 1,
{
    let mut parts: Vec<Vec<char>> = Vec::new();
    let mut cur: Vec<char> = Vec::new();
    let mut i: usize = 0;
    assert(s@.take(0) =~= Seq::<char>::empty());
    while i < s.len()
        invariant
            i <= s@.len(),
            parts@.map_values(|p: Vec<char>| p@).push(cur@) == split_at_char(s@.take(i as int), sep),
        decreases s@.len() - i,
    {
        let ghost t = s@.take(i + 1);
        proof {
            assert(t.drop_last() =~= s@.take(i as int));
            assert(t.last() == s@[i as int]);
            lemma_split_at_char_nonempty(s@.take(i as int), sep);
        }
        let ghost before_parts = parts@.map_values(|p: Vec<char>| p@);
        let ghost before_cur = cur@;
        if s[i] == sep {
            let done = cur;
            parts.push(done);
            cur = Vec::new();
            assert(parts@.map_values(|p: Vec<char>| p@) =~= before_parts.push(before_cur));
            assert(parts@.map_values(|p: Vec<char>| p@).push(cur@) =~= before_parts.push(before_cur).push(Seq::empty()));
        } else {
            cur.push(s[i]);
            assert(parts@.map_values(|p: Vec<char>| p@) =~= before_parts);
            assert(before_parts.push(cur@) =~= before_parts.push(before_cur).update(
                before_parts.len() as int,
                before_cur.push(s@[i as int]),
            ));
        }
        i += 1;
    }
    assert(s@.take(s@.len() as int) =~= s@);
    let ghost before_parts = parts@.map_values(|p: Vec<char>| p@);
    parts.push(cur);
    assert(parts@.map_values(|p: Vec<char>| p@) =~= before_parts.push(cur@));
    parts
}

/// The longest prefix of `s` that holds no white space.
pub open spec fn leading_word(s: Seq<char>) -> Seq<char>
    decreases s.len(),
{
    if s.len() == 0 || is_white_space(s[0]) {
        Seq::empty()
    } else {
        seq![s[0]] + leading_word(s.drop_first())
    }
}

/// The maximal runs of non-white-space characters of `s`, in order
/// (`str::split_whitespace`).
pub open spec fn split_white_space(s: Seq<char>) -> Seq<Seq<char>>
    decreases s.len(),
{
    if s.len() == 0 {
        Seq::empty()
    } else if is_white_space(s[0]) {
        split_white_space(s.drop_first())
    } else {
        let w = leading_word(s);
        proof {
            lemma_leading_word_len(s);
        }
        seq![w] + split_white_space(s.skip(w.len() as int))
    }
}

/// The words joined with single spaces.
pub open spec fn join_with_space(words: Seq<Seq<char>>) -> Seq<char>
    decreases words.len(),
{
    if words.len() == 0 {
        Seq::empty()
    } else if words.len() == 1 {
        words[0]
    } else {
        join_with_space(words.drop_last()) + seq![' '] + words.last()
    }
}

pub proof fn lemma_leading_word_len(s: Seq<char>)
    ensures
        leading_word(s).len() <= s.len(),
        s.len() > 0 && !is_white_space(s[0]) ==> leading_word(s).len() > 0,
    decreases s.len(),
{
    if s.len() > 0 && !is_white_space(s[0]) {
        lemma_leading_word_len(s.drop_first());
    }
}

proof fn lemma_leading_word_take(s: Seq<char>, k: int)
    requires
        0 <= k <= s.len(),
        forall|j: int| 0 <= j < k ==> !is_white_space(#[trigger] s[j]),
        k == s.len() || is_white_space(s[k]),
    ensures
        leading_word(s) == s.take(k),
    decreases k,
{
    if k == 0 {
        assert(s.take(0) =~= Seq::<char>::empty());
    } else {
        let t = s.drop_first();
        assert forall|j: int| 0 <= j < k - 1 implies !is_white_space(#[trigger] t[j]) by {
            assert(t[j] == s[j + 1]);
        }
        assert(!is_white_space(s[0]));
        lemma_leading_word_take(t, k - 1);
        assert(seq![s[0]] + t.take(k - 1) =~= s.take(k));
    }
}

/// Whether `w` is a word: non-empty and free of white space.
pub open spec fn is_word(w: Seq<char>) -> bool {
    w.len() > 0 && forall|i: int| 0 <= i < w.len() ==> !is_white_space(#[trigger] w[i])
}

/// The leading word holds no white space.
proof fn lemma_leading_word_no_space(s: Seq<char>)
    ensures
        forall|i: int| 0 <= i < leading_word(s).len() ==> !is_white_space(#[trigger] leading_word(s)[i]),
    decreases s.len(),
{
    if s.len() > 0 && !is_white_space(s[0]) {
        lemma_leading_word_no_space(s.drop_first());
        let w = leading_word(s);
        let t = leading_word(s.drop_first());
        assert(w =~= seq![s[0]] + t);
        assert forall|i: int| 0 <= i < w.len() implies !is_white_space(#[trigger] w[i]) by {
            if i > 0 {
                assert(w[i] == t[i - 1]);
            }
        }
    }
}

/// Every piece that the split yields is a word.
proof fn lemma_split_words(s: Seq<char>)
    ensures
        forall|k: int| 0 <= k < split_white_space(s).len() ==> is_word(#[trigger] split_white_space(s)[k]),
    decreases s.len(),
{
    if s.len() == 0 {
        assert(split_white_space(s).len() == 0);
    } else {
        if is_white_space(s[0]) {
            lemma_split_words(s.drop_first());
            assert(split_white_space(s) == split_white_space(s.drop_first()));
        } else {
            let w = leading_word(s);
            lemma_leading_word_len(s);
            lemma_leading_word_no_space(s);
            lemma_split_words(s.skip(w.len() as int));
            let rest = split_white_space(s.skip(w.len() as int));
            assert(split_white_space(s) == seq![w] + rest);
            assert(is_word(w));
            assert forall|k: int| 0 <= k < split_white_space(s).len() implies is_word(#[trigger] split_white_space(s)[k]) by {
                if k > 0 {
                    assert(split_white_space(s)[k] == rest[k - 1]);
                }
            }
        }
    }
}

/// A word is its own leading word and its own split.
proof fn lemma_split_word(w: Seq<char>)
    requires
        is_word(w),
    ensures
        leading_word(w) == w,
        split_white_space(w) == seq![w],
{
    lemma_leading_word_take(w, w.len() as int);
    assert(w.take(w.len() as int) =~= w);
    assert(w.skip(w.len() as int) =~= Seq::<char>::empty());
    assert(!is_white_space(w[0]));
    assert(split_white_space(Seq::<char>::empty()) == Seq::<Seq<char>>::empty());
    assert(split_white_space(w) == seq![w] + split_white_space(w.skip(w.len() as int)));
    assert(seq![w] + Seq::<Seq<char>>::empty() =~= seq![w]);
}

/// The leading word stops before white space that follows.
proof fn lemma_leading_word_prefix(x: Seq<char>, y: Seq<char>)
    requires
        y.len() > 0,
        is_white_space(y[0]),
    ensures
        leading_word(x + y) == leading_word(x),
    decreases x.len(),
{
    if x.len() == 0 {
        assert(x + y =~= y);
    } else {
        assert((x + y)[0] == x[0]);
        assert((x + y).drop_first() =~= x.drop_first() + y);
        lemma_leading_word_prefix(x.drop_first(), y);
    }
}

/// Splitting text, a space and a word gives the words of the text and then
/// that word.
proof fn lemma_split_append_word(x: Seq<char>, w: Seq<char>)
    requires
        is_word(w),
    ensures
        split_white_space(x + seq![' '] + w) == split_white_space(x).push(w),
    decreases x.len(),
{
    let y = seq![' '] + w;
    assert(x + seq![' '] + w =~= x + y);
    if x.len() == 0 {
        assert(x + y =~= y);
        assert(y.drop_first() =~= w);
        lemma_split_word(w);
        assert(split_white_space(x) =~= Seq::<Seq<char>>::empty());
        assert(split_white_space(x).push(w) =~= seq![w]);
    } else if is_white_space(x[0]) {
        assert((x + y)[0] == x[0]);
        assert((x + y).drop_first() =~= x.drop_first() + y);
        lemma_split_append_word(x.drop_first(), w);
        assert(x.drop_first() + seq![' '] + w =~= x.drop_first() + y);
    } else {
        assert((x + y)[0] == x[0]);
        lemma_leading_word_prefix(x, y);
        let lw = leading_word(x);
        lemma_leading_word_len(x);
        assert((x + y).skip(lw.len() as int) =~= x.skip(lw.len() as int) + y);
        lemma_split_append_word(x.skip(lw.len() as int), w);
        assert(x.skip(lw.len() as int) + seq![' '] + w =~= x.skip(lw.len() as int) + y);
        assert(split_white_space(x + y) =~= seq![lw] + split_white_space(x.skip(lw.len() as int)).push(w));
        assert(split_white_space(x) =~= seq![lw] + split_white_space(x.skip(lw.len() as int)));
    }
}

/// Words joined with spaces split back into the same words.
pub proof fn lemma_split_join(words: Seq<Seq<char>>)
    requires
        forall|k: int| 0 <= k < words.len() ==> is_word(#[trigger] words[k]),
    ensures
        split_white_space(join_with_space(words)) == words,
    decreases words.len(),
{
    if words.len() == 0 {
        assert(split_white_space(Seq::<char>::empty()) =~= Seq::<Seq<char>>::empty());
    } else if words.len() == 1 {
        lemma_split_word(words[0]);
        assert(seq![words[0]] =~= words);
    } else {
        let init = words.drop_last();
        assert forall|k: int| 0 <= k < init.len() implies is_word(#[trigger] init[k]) by {
            assert(init[k] == words[k]);
        }
        lemma_split_join(init);
        lemma_split_append_word(join_with_space(init), words.last());
        assert(init.push(words.last()) =~= words);
    }
}

/// Collapsing white space a second time changes nothing: the words of the
/// words joined with single spaces are those words again.
pub proof fn law_collapse_white_space_idempotent(s: Seq<char>)
    ensures
        join_with_space(split_white_space(join_with_space(split_white_space(s)))) == join_with_space(split_white_space(s)),
{
    lemma_split_words(s);
    lemma_split_join(split_white_space(s));
}

/// The view of a vector of strings as character sequences.
pub open spec fn strings_view(v: Seq<String>) -> Seq<Seq<char>> {
    v.map_values(|w: String| w@)
}

/// The words of `s`: its maximal runs of non-white-space characters.
pub fn split_white_space_chars(s: &[char]) -> (r: Vec<String>)
    ensures
        strings_view(r@) == split_white_space(s@),
{
    let n = s.len();
    let mut r: Vec<String> = Vec::new();
    let mut i: usize = 0;
    assert(s@.skip(0) =~= s@);
    while i < n
        invariant
            n == s@.len(),
            i <= n,
            split_white_space(s@) == strings_view(r@) + split_white_space(s@.skip(i as int)),
        decreases n - i,
    {
        let ghost rest = s@.skip(i as int);
        if is_white_space_char(s[i]) {
            assert(rest.drop_first() =~= s@.skip(i + 1));
            i += 1;
        } else {
            let mut j: usize = i;
            let mut word: Vec<char> = Vec::new();
            while j < n && !is_white_space_char(s[j])
                invariant
                    n == s@.len(),
                    i <= j <= n,
                    word@ == s@.subrange(i as int, j as int),
                    forall|k: int| i <= k < j ==> !is_white_space(#[trigger] s@[k]),
                decreases n - j,
            {
                word.push(s[j]);
                j += 1;
            }
            proof {
                assert forall|k: int| 0 <= k < j - i implies !is_white_space(#[trigger] rest[k]) by {
                    assert(rest[k] == s@[k + i]);
                }
                if j < n {
                    assert(rest[j - i] == s@[j as int]);
                }
                lemma_leading_word_take(rest, j - i);
                assert(rest.take(j - i) =~= word@);
                assert(rest.skip(j - i) =~= s@.skip(j as int));
            }
            let w = string_from_chars(word.as_slice());
            let ghost before = r@;
            r.push(w);
            assert(strings_view(r@) =~= strings_view(before) + seq![w@]);
            i = j;
        }
    }
    assert(s@.skip(n as int) =~= Seq::<char>::empty());
    assert(strings_view(r@) + Seq::<Seq<char>>::empty() =~= strings_view(r@));
    r
}


proof fn lemma_join_take_step(words: Seq<Seq<char>>, i: int)
    requires
        0 <= i < words.len(),
    ensures
        join_with_space(words.take(i + 1)) == if i == 0 {
            words[0]
        } else {
            join_with_space(words.take(i)) + seq![' '] + words[i]
        },
{
    let t = words.take(i + 1);
    assert(t.drop_last() =~= words.take(i));
    assert(t.last() == words[i]);
    if i == 0 {
        assert(t.len() == 1);
    }
}

/// The words joined with single spaces.
pub fn join_words_with_space(words: &Vec<String>) -> (r: String)
    ensures
        r@ == join_with_space(strings_view(words@)),
{
    let ghost ws = strings_view(words@);
    let mut r = String::new();
    let mut i: usize = 0;
    let space = " ";
    proof {
        reveal_strlit(" ");
        assert(ws.take(0) =~= Seq::<Seq<char>>::empty());
    }
    while i < words.len()
        invariant
            ws == strings_view(words@),
            i <= words@.len(),
            r@ == join_with_space(ws.take(i as int)),
            space@ == seq![' '],
        decreases words@.len() - i,
    {
        proof {
            lemma_join_take_step(ws, i as int);
        }
        if i > 0 {
            r.append(space);
        }
        r.append(words[i].as_str());
        i += 1;
    }
    assert(ws.take(words@.len() as int) =~= ws);
    r
}

/// `s` with every `"\r\n"` pair replaced by `"\n"`, scanning from the left
/// (`str::replace("\r\n", "\n")`).
pub open spec fn replace_crlf(s: Seq<char>) -> Seq<char>
    decreases s.len(),
{
    if s.len() == 0 {
        Seq::empty()
    } else if s.len() >= 2 && s[0] == '\r' && s[1] == '\n' {
        seq!['\n'] + replace_crlf(s.skip(2))
    } else {
        seq![s[0]] + replace_crlf(s.drop_first())
    }
}

/// The characters of `s` with every `"\r\n"` replaced by `"\n"`.
pub fn replace_crlf_chars(s: &[char]) -> (r: Vec<char>)
    ensures
        r@ == replace_crlf(s@),
{
    let n = s.len();
    let mut r: Vec<char> = Vec::new();
    let mut i: usize = 0;
    assert(s@.skip(0) =~= s@);
    while i < n
        invariant
            n == s@.len(),
            i <= n,
            replace_crlf(s@) == r@ + replace_crlf(s@.skip(i as int)),
        decreases n - i,
    {
        let ghost rest = s@.skip(i as int);
        let ghost before = r@;
        if i + 1 < n && s[i] == '\r' && s[i + 1] == '\n' {
            assert(rest.skip(2) =~= s@.skip(i + 2));
            r.push('\n');
            i += 2;
        } else {
            assert(rest.drop_first() =~= s@.skip(i + 1));
            r.push(s[i]);
            i += 1;
        }
        assert(r@ + replace_crlf(s@.skip(i as int)) =~= before + replace_crlf(rest));
    }
    assert(s@.skip(n as int) =~= Seq::<char>::empty());
    assert(r@ + Seq::<char>::empty() =~= r@);
    r
}

} // verus!
