use vstd::prelude::*;
use vstd::string::*;

verus! {

/// `String::push` appends one character to the end of the string.
pub assume_specification[ String::push ](text: &mut String, ch: char)
    ensures
        final(text)@ == old(text)@.push(ch),
;

/// `String::pop` removes the last character and returns it, or returns
/// `None` and leaves the string alone if it is empty.
pub assume_specification[ String::pop ](text: &mut String) -> (last: Option<char>)
    ensures
        old(text)@.len() == 0 ==> last is None && final(text)@ == old(text)@,
        old(text)@.len() > 0 ==> last == Some(old(text)@.last()) && final(text)@ == old(
            text,
        )@.drop_last(),
;

/// `String::clear` removes all characters.
pub assume_specification[ String::clear ](text: &mut String)
    ensures
        final(text)@ == Seq::<char>::empty(),
;

/// The characters that separate words: those with the Unicode property
/// White_Space.
pub open spec fn is_space(c: char) -> bool {
    let code = c as u32;
    ||| 0x09 <= code <= 0x0D
    ||| code == 0x20
    ||| code == 0x85
    ||| code == 0xA0
    ||| code == 0x1680
    ||| 0x2000 <= code <= 0x200A
    ||| code == 0x2028
    ||| code == 0x2029
    ||| code == 0x202F
    ||| code == 0x205F
    ||| code == 0x3000
}

/// A text read from left to right: the words that have ended, and the
/// characters of a word that has not.
pub open spec fn scanned(text: Seq<char>) -> (Seq<Seq<char>>, Seq<char>)
    decreases text.len(),
{
    if text.len() == 0 {
        (Seq::empty(), Seq::empty())
    } else {
        let (done, word) = scanned(text.drop_last());
        if !is_space(text.last()) {
            (done, word.push(text.last()))
        } else if word.len() > 0 {
            (done.push(word), Seq::empty())
        } else {
            (done, word)
        }
    }
}

/// The words of a text: its longest runs of characters that are not
/// spaces, from left to right.
pub open spec fn words(text: Seq<char>) -> Seq<Seq<char>> {
    let (done, word) = scanned(text);
    if word.len() > 0 {
        done.push(word)
    } else {
        done
    }
}

/// Whether a character separates words.
pub fn is_separator(c: char) -> (space: bool)
    ensures
        space == is_space(c),
{
    let code = c as u32;
    (0x09 <= code && code <= 0x0D) || code == 0x20 || code == 0x85 || code == 0xA0 || code
        == 0x1680 || (0x2000 <= code && code <= 0x200A) || code == 0x2028 || code == 0x2029
        || code == 0x202F || code == 0x205F || code == 0x3000
}

/// The two words of a text that consists of exactly two words.
pub fn two_words(text: &str) -> (pair: Option<(Vec<char>, Vec<char>)>)
    ensures
        match pair {
            Some((first, second)) => {
                &&& words(text@).len() == 2
                &&& first@ == words(text@)[0]
                &&& second@ == words(text@)[1]
            },
            None => words(text@).len() != 2,
        },
{
    let length = text.unicode_len();
    let mut first: Vec<char> = Vec::new();
    let mut second: Vec<char> = Vec::new();
    let mut word: Vec<char> = Vec::new();
    let mut count: usize = 0;
    let mut i: usize = 0;
    assert(text@.take(0) =~= Seq::<char>::empty());
    while i < length
        invariant
            i <= length,
            length == text@.len(),
            count <= i,
            count == scanned(text@.take(i as int)).0.len(),
            word@ == scanned(text@.take(i as int)).1,
            count >= 1 ==> first@ == scanned(text@.take(i as int)).0[0],
            count >= 2 ==> second@ == scanned(text@.take(i as int)).0[1],
        decreases length - i,
    {
        let c = text.get_char(i);
        proof {
            assert(text@.take(i + 1).drop_last() =~= text@.take(i as int));
            assert(text@.take(i + 1).last() == c);
        }
        if !is_separator(c) {
            word.push(c);
        } else if word.len() > 0 {
            if count == 0 {
                first = word;
            } else if count == 1 {
                second = word;
            }
            word = Vec::new();
            count += 1;
        }
        i += 1;
    }
    assert(text@.take(i as int) =~= text@);
    if word.len() > 0 {
        if count == 0 {
            first = word;
        } else if count == 1 {
            second = word;
        }
        if count == usize::MAX {
            return None;
        }
        count += 1;
    }
    if count == 2 {
        Some((first, second))
    } else {
        None
    }
}

} // verus!
