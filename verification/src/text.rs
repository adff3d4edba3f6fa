//! Text as sequences of characters: white space, words, letter case, and the few
//! string operations the rest of the crate needs.

use vstd::prelude::*;
use vstd::string::StringExecFns;

verus! {

/// `String::push` appends one character.
pub assume_specification[ String::push ](string: &mut String, ch: char)
    ensures
        final(string)@ == old(string)@.push(ch),
;

/// Calls `String::from_utf8`, which accepts exactly the valid UTF-8 byte
/// strings and then holds the characters that the bytes encode.
#[verifier::external_body]
fn string_from_utf8(bytes: Vec<u8>) -> (text: Option<String>)
    ensures
        text is Some <==> vstd::utf8::valid_utf8(bytes@),
        text matches Some(t) ==> t@ == vstd::utf8::decode_utf8(bytes@),
{
    String::from_utf8(bytes).ok()
}

/// The text that `bytes` encode, if they are valid UTF-8.
pub fn text_from_utf8(bytes: Vec<u8>) -> (text: Option<String>)
    ensures
        text is Some <==> vstd::utf8::valid_utf8(bytes@),
        text matches Some(t) ==> t@ == vstd::utf8::decode_utf8(bytes@),
{
    string_from_utf8(bytes)
}

/// A string with the characters of `text`.
pub fn copy(text: &str) -> (copy: String)
    ensures
        copy@ == text@,
{
    String::from_str(text)
}

/// The characters of `text`.
pub fn chars_of(text: &str) -> (chars: Vec<char>)
    ensures
        chars@ == text@,
{
    let mut chars: Vec<char> = Vec::new();
    for c in it: text.chars()
        invariant
            chars@ == text@.take(it.index() as int),
            it.seq() == text@,
    {
        chars.push(c);
        assert(text@.take(it.index() + 1) =~= text@.take(it.index() as int).push(c));
    }
    assert(text@.take(text@.len() as int) =~= text@);
    chars
}

/// The string made of `chars`.
pub fn string_of(chars: &[char]) -> (text: String)
    ensures
        text@ == chars@,
{
    let mut text = String::new();
    let mut i: usize = 0;
    while i < chars.len()
        invariant
            i <= chars@.len(),
            text@ == chars@.take(i as int),
        decreases chars@.len() - i,
    {
        text.push(chars[i]);
        assert(chars@.take(i + 1) =~= chars@.take(i as int).push(chars@[i as int]));
        i = i + 1;
    }
    assert(chars@.take(chars@.len() as int) =~= chars@);
    text
}

/// Whether two texts hold the same characters.
pub fn same_text(a: &str, b: &str) -> (same: bool)
    ensures
        same == (a@ == b@),
{
    let x = chars_of(a);
    let y = chars_of(b);
    same_chars(x.as_slice(), y.as_slice())
}

/// Whether two character slices hold the same characters.
pub fn same_chars(x: &[char], y: &[char]) -> (same: bool)
    ensures
        same == (x@ == y@),
{
    if x.len() != y.len() {
        return false;
    }
    let mut i: usize = 0;
    while i < x.len()
        invariant
            i <= x@.len(),
            x@.len() == y@.len(),
            forall|k: int| 0 <= k < i ==> x@[k] == y@[k],
        decreases x@.len() - i,
    {
        if x[i] != y[i] {
            return false;
        }
        i = i + 1;
    }
    assert(x@ =~= y@);
    true
}

/// The length of `text` in UTF-8, as a file size.
pub fn byte_length(text: &str) -> (length: u64)
    ensures
        length == vstd::utf8::encode_utf8(text@).len(),
{
    text.as_bytes().len() as u64
}

/// Whether `c` is white space (the Unicode `White_Space` property).
pub open spec fn is_space(c: char) -> bool {
    let u = c as u32;
    ||| 0x09 <= u <= 0x0d
    ||| u == 0x20
    ||| u == 0x85
    ||| u == 0xa0
    ||| u == 0x1680
    ||| 0x2000 <= u <= 0x200a
    ||| u == 0x2028
    ||| u == 0x2029
    ||| u == 0x202f
    ||| u == 0x205f
    ||| u == 0x3000
}

/// Whether `c` is white space.
pub fn char_is_space(c: char) -> (space: bool)
    ensures
        space == is_space(c),
{
    let u: u32 = c as u32;
    (0x09 <= u && u <= 0x0d) || u == 0x20 || u == 0x85 || u == 0xa0 || u == 0x1680 || (0x2000 <= u
        && u <= 0x200a) || u == 0x2028 || u == 0x2029 || u == 0x202f || u == 0x205f || u == 0x3000
}

/// `s` without its leading white space.
pub open spec fn trim_left(s: Seq<char>) -> Seq<char>
    decreases s.len(),
{
    if s.len() > 0 && is_space(s[0]) {
        trim_left(s.drop_first())
    } else {
        s
    }
}

/// `s` without its trailing white space.
pub open spec fn trim_right(s: Seq<char>) -> Seq<char>
    decreases s.len(),
{
    if s.len() > 0 && is_space(s.last()) {
        trim_right(s.drop_last())
    } else {
        s
    }
}

/// `s` without its surrounding white space.
pub open spec fn trimmed(s: Seq<char>) -> Seq<char> {
    trim_right(trim_left(s))
}

/// Whether all of `s` is white space.
pub open spec fn all_spaces(s: Seq<char>) -> bool {
    forall|i: int| 0 <= i < s.len() ==> is_space(#[trigger] s[i])
}

/// Text that starts and ends without white space is what is left of it with white
/// space around it.
pub proof fn lemma_trimmed_inside(before: Seq<char>, s: Seq<char>, after: Seq<char>)
    requires
        s.len() > 0,
        !is_space(s[0]),
        !is_space(s.last()),
        all_spaces(before),
        all_spaces(after),
    ensures
        trimmed(before + s + after) == s,
    decreases before.len() + after.len(),
{
    let whole = before + s + after;
    if before.len() > 0 {
        assert(is_space(before[0]));
        assert(whole[0] == before[0]);
        let rest = before.drop_first();
        assert(all_spaces(rest)) by {
            assert forall|i: int| 0 <= i < rest.len() implies is_space(#[trigger] rest[i]) by {
                assert(rest[i] == before[i + 1]);
            }
        }
        assert(whole.drop_first() =~= rest + s + after);
        lemma_trimmed_inside(rest, s, after);
    } else {
        assert(whole[0] == s[0]);
        assert(trim_left(whole) == whole);
        if after.len() > 0 {
            assert(is_space(after[after.len() - 1]));
            assert(whole.last() == after.last());
            let rest = after.drop_last();
            assert(all_spaces(rest)) by {
                assert forall|i: int| 0 <= i < rest.len() implies is_space(#[trigger] rest[i]) by {
                    assert(rest[i] == after[i]);
                }
            }
            assert(whole.drop_last() =~= before + s + rest);
            lemma_trimmed_inside(before, s, rest);
            assert((before + s + rest)[0] == s[0]);
            assert(trim_left(before + s + rest) == before + s + rest);
        } else {
            assert(whole =~= s);
        }
    }
}

/// The characters of `text` without its surrounding white space.
pub fn trim_text(text: &str) -> (chars: Vec<char>)
    ensures
        chars@ == trimmed(text@),
{
    let all = chars_of(text);
    let mut i: usize = 0;
    assert(all@.subrange(0, all@.len() as int) =~= all@);
    while i < all.len() && char_is_space(all[i])
        invariant
            i <= all@.len(),
            all@ == text@,
            trim_left(all@.subrange(i as int, all@.len() as int)) == trim_left(text@),
        decreases all@.len() - i,
    {
        assert(all@.subrange(i as int, all@.len() as int).drop_first() =~= all@.subrange(
            i + 1,
            all@.len() as int,
        ));
        i = i + 1;
    }
    assert(trim_left(text@) == all@.subrange(i as int, all@.len() as int));
    let mut j: usize = all.len();
    while i < j && char_is_space(all[j - 1])
        invariant
            i <= j <= all@.len(),
            trim_right(all@.subrange(i as int, j as int)) == trimmed(text@),
        decreases j - i,
    {
        assert(all@.subrange(i as int, j as int).drop_last() =~= all@.subrange(i as int, j - 1));
        j = j - 1;
    }
    assert(trimmed(text@) == all@.subrange(i as int, j as int));
    let mut chars: Vec<char> = Vec::new();
    let mut k: usize = i;
    while k < j
        invariant
            i <= k <= j <= all@.len(),
            chars@ == all@.subrange(i as int, k as int),
        decreases j - k,
    {
        chars.push(all[k]);
        assert(all@.subrange(i as int, k + 1) =~= all@.subrange(i as int, k as int).push(
            all@[k as int],
        ));
        k = k + 1;
    }
    chars
}

/// The words completed so far and the word under way after reading `s`.
pub open spec fn split_words(s: Seq<char>) -> (Seq<Seq<char>>, Seq<char>)
    decreases s.len(),
{
    if s.len() == 0 {
        (Seq::empty(), Seq::empty())
    } else {
        let (done, current) = split_words(s.drop_last());
        if !is_space(s.last()) {
            (done, current.push(s.last()))
        } else if current.len() > 0 {
            (done.push(current), Seq::empty())
        } else {
            (done, current)
        }
    }
}

/// The maximal runs of `s` that hold no white space.
pub open spec fn words(s: Seq<char>) -> Seq<Seq<char>> {
    let (done, current) = split_words(s);
    if current.len() > 0 {
        done.push(current)
    } else {
        done
    }
}

/// The characters of each vector.
pub open spec fn char_views(v: Seq<Vec<char>>) -> Seq<Seq<char>> {
    Seq::new(v.len(), |i: int| v[i]@)
}

/// The words of `text`.
pub fn words_of(text: &str) -> (parts: Vec<Vec<char>>)
    ensures
        char_views(parts@) == words(text@),
{
    let all = chars_of(text);
    let mut parts: Vec<Vec<char>> = Vec::new();
    let mut current: Vec<char> = Vec::new();
    let mut i: usize = 0;
    while i < all.len()
        invariant
            i <= all@.len(),
            all@ == text@,
            char_views(parts@) == split_words(all@.take(i as int)).0,
            current@ == split_words(all@.take(i as int)).1,
        decreases all@.len() - i,
    {
        assert(all@.take(i + 1).drop_last() =~= all@.take(i as int));
        let c = all[i];
        if !char_is_space(c) {
            current.push(c);
        } else if current.len() > 0 {
            let ghost before = parts@;
            let ghost word = current@;
            parts.push(current);
            assert(char_views(parts@) =~= char_views(before).push(word));
            current = Vec::new();
        }
        i = i + 1;
    }
    assert(all@.take(all@.len() as int) =~= all@);
    if current.len() > 0 {
        let ghost before = parts@;
        let ghost word = current@;
        parts.push(current);
        assert(char_views(parts@) =~= char_views(before).push(word));
    }
    parts
}

/// `s` without any of its white space.
pub open spec fn without_spaces(s: Seq<char>) -> Seq<char>
    decreases s.len(),
{
    if s.len() == 0 {
        s
    } else if is_space(s.last()) {
        without_spaces(s.drop_last())
    } else {
        without_spaces(s.drop_last()).push(s.last())
    }
}

/// The characters of `text` that are not white space.
pub fn strip_spaces(text: &str) -> (chars: Vec<char>)
    ensures
        chars@ == without_spaces(text@),
{
    let all = chars_of(text);
    let mut chars: Vec<char> = Vec::new();
    let mut i: usize = 0;
    while i < all.len()
        invariant
            i <= all@.len(),
            all@ == text@,
            chars@ == without_spaces(all@.take(i as int)),
        decreases all@.len() - i,
    {
        assert(all@.take(i + 1).drop_last() =~= all@.take(i as int));
        let c = all[i];
        if !char_is_space(c) {
            chars.push(c);
        }
        i = i + 1;
    }
    assert(all@.take(all@.len() as int) =~= all@);
    chars
}

/// `c`, in upper case if it is an ASCII letter.
pub open spec fn ascii_upper(c: char) -> char {
    if 'a' <= c <= 'z' {
        (c as u32 - 32) as char
    } else {
        c
    }
}

/// Whether two texts are the same up to the case of ASCII letters.
pub open spec fn same_ignoring_case(s: Seq<char>, t: Seq<char>) -> bool {
    &&& s.len() == t.len()
    &&& forall|i: int| 0 <= i < s.len() ==> ascii_upper(s[i]) == ascii_upper(t[i])
}

/// The words of two texts with white space between them are those of the first and those
/// of the second; a text without white space is one word, and white space alone has none.
pub proof fn law_words_of_texts(front: Seq<char>, space: char, back: Seq<char>)
    requires
        is_space(space),
    ensures
        words(front + seq![space] + back) == words(front) + words(back),
        words(Seq::empty()) == Seq::<Seq<char>>::empty(),
{
    lemma_split_behind_space(front, space, back);
    let (done, current) = split_words(back);
    assert(words(front + seq![space] + back) =~= words(front) + words(back));
    assert(words(Seq::empty()) =~= Seq::<Seq<char>>::empty());
}

/// A text without white space is one word.
pub proof fn law_text_without_space_is_a_word(text: Seq<char>)
    requires
        text.len() > 0,
        forall|i: int| 0 <= i < text.len() ==> !is_space(#[trigger] text[i]),
    ensures
        words(text) == seq![text],
{
    lemma_split_without_space(text);
    assert(words(text) =~= seq![text]);
}

proof fn lemma_split_without_space(text: Seq<char>)
    requires
        forall|i: int| 0 <= i < text.len() ==> !is_space(#[trigger] text[i]),
    ensures
        split_words(text) == (Seq::<Seq<char>>::empty(), text),
    decreases text.len(),
{
    if text.len() > 0 {
        let rest = text.drop_last();
        assert forall|i: int| 0 <= i < rest.len() implies !is_space(#[trigger] rest[i]) by {
            assert(rest[i] == text[i]);
        }
        lemma_split_without_space(rest);
        assert(!is_space(text[text.len() - 1]));
        assert(rest.push(text.last()) =~= text);
    } else {
        assert(text =~= Seq::<char>::empty());
    }
}

proof fn lemma_split_behind_space(front: Seq<char>, space: char, back: Seq<char>)
    requires
        is_space(space),
    ensures
        split_words(front + seq![space] + back) == (
            words(front) + split_words(back).0,
            split_words(back).1,
        ),
    decreases back.len(),
{
    let whole = front + seq![space] + back;
    if back.len() == 0 {
        assert(whole.drop_last() =~= front);
        assert(whole.last() == space);
        assert(words(front) + split_words(back).0 =~= words(front));
        if split_words(front).1.len() == 0 {
            assert(split_words(front).1 =~= Seq::<char>::empty());
        }
    } else {
        let rest = back.drop_last();
        lemma_split_behind_space(front, space, rest);
        assert(whole.drop_last() =~= front + seq![space] + rest);
        assert(whole.last() == back.last());
        let (done, current) = split_words(rest);
        if is_space(back.last()) && current.len() > 0 {
            assert((words(front) + done).push(current) =~= words(front) + done.push(current));
        }
    }
}

/// What is left without white space is every other character, in order.
pub proof fn law_only_white_space_is_left_out(s: Seq<char>)
    ensures
        without_spaces(s) == s.filter(|c: char| !is_space(c)),
    decreases s.len(),
{
    reveal(Seq::filter);
    if s.len() > 0 {
        law_only_white_space_is_left_out(s.drop_last());
    }
}

/// Only white space is trimmed, and none is left at either end: every text is what is left
/// of it with white space before and behind it.
pub proof fn law_only_white_space_is_trimmed(s: Seq<char>) -> (parts: (Seq<char>, Seq<char>))
    ensures
        s == parts.0 + trimmed(s) + parts.1,
        all_spaces(parts.0),
        all_spaces(parts.1),
        trimmed(s).len() > 0 ==> !is_space(trimmed(s)[0]) && !is_space(trimmed(s).last()),
{
    let front = lemma_trim_left(s);
    let back = lemma_trim_right(trim_left(s));
    assert(s =~= front + trimmed(s) + back);
    if trimmed(s).len() > 0 {
        assert(trimmed(s)[0] == trim_left(s)[0]);
    }
    (front, back)
}

proof fn lemma_trim_left(s: Seq<char>) -> (front: Seq<char>)
    ensures
        s == front + trim_left(s),
        all_spaces(front),
        trim_left(s).len() > 0 ==> !is_space(trim_left(s)[0]),
    decreases s.len(),
{
    if s.len() > 0 && is_space(s[0]) {
        let rest = lemma_trim_left(s.drop_first());
        let front = seq![s[0]] + rest;
        assert(s =~= seq![s[0]] + s.drop_first());
        assert(s =~= front + trim_left(s));
        assert forall|i: int| 0 <= i < front.len() implies is_space(#[trigger] front[i]) by {
            if i > 0 {
                assert(front[i] == rest[i - 1]);
            }
        }
        front
    } else {
        assert(s =~= Seq::<char>::empty() + s);
        Seq::empty()
    }
}

proof fn lemma_trim_right(s: Seq<char>) -> (back: Seq<char>)
    ensures
        s == trim_right(s) + back,
        all_spaces(back),
        trim_right(s).len() > 0 ==> !is_space(trim_right(s).last()),
    decreases s.len(),
{
    if s.len() > 0 && is_space(s.last()) {
        let rest = lemma_trim_right(s.drop_last());
        let back = rest.push(s.last());
        assert(s =~= s.drop_last().push(s.last()));
        assert(s =~= trim_right(s) + back);
        assert forall|i: int| 0 <= i < back.len() implies is_space(#[trigger] back[i]) by {
            if i < rest.len() {
                assert(back[i] == rest[i]);
            }
        }
        back
    } else {
        assert(s =~= s + Seq::<char>::empty());
        Seq::empty()
    }
}

/// Whether `part` stands in `whole` at `at`.
pub open spec fn stands_at(whole: Seq<char>, part: Seq<char>, at: int) -> bool {
    &&& 0 <= at
    &&& at + part.len() <= whole.len()
    &&& whole.subrange(at, at + part.len()) == part
}

/// Whether `part` stands somewhere in `whole`.
pub open spec fn holds(whole: Seq<char>, part: Seq<char>) -> bool {
    exists|at: int| stands_at(whole, part, at)
}

/// A text holds what it was put together from.
pub proof fn lemma_holds(front: Seq<char>, part: Seq<char>, back: Seq<char>)
    ensures
        holds(front + part + back, part),
{
    let whole = front + part + back;
    let at = front.len() as int;
    assert(whole.subrange(at, at + part.len()) =~= part);
    assert(stands_at(whole, part, at));
}

} // verus!
