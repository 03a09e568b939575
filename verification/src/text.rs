//! Questions about text that several modules ask: prefixes, suffixes,
//! digits, equality.

use vstd::prelude::*;

verus! {

/// Whether `c` is one of the digits `0` to `9`.
pub open spec fn is_digit(c: char) -> bool {
    0x30 <= c as u32 <= 0x39
}

/// Whether every character of `text` is a digit.
pub open spec fn is_digits(text: Seq<char>) -> bool {
    forall|i: int| 0 <= i < text.len() ==> is_digit(#[trigger] text[i])
}

/// The digits of `text`, in their order.
pub open spec fn digits_of(text: Seq<char>) -> Seq<char>
    decreases text.len(),
{
    if text.len() == 0 {
        Seq::empty()
    } else if is_digit(text.last()) {
        digits_of(text.drop_last()).push(text.last())
    } else {
        digits_of(text.drop_last())
    }
}

/// Whether `text` begins with `prefix`.
pub open spec fn has_prefix(text: Seq<char>, prefix: Seq<char>) -> bool {
    prefix.len() <= text.len() && text.subrange(0, prefix.len() as int) == prefix
}

/// Whether `text` ends with `suffix`.
pub open spec fn has_suffix(text: Seq<char>, suffix: Seq<char>) -> bool {
    suffix.len() <= text.len() && text.subrange(text.len() - suffix.len(), text.len() as int)
        == suffix
}

/// Whether `c` is one of the digits `0` to `9`.
pub fn digit(c: char) -> (is: bool)
    ensures
        is == is_digit(c),
{
    let code: u32 = c as u32;
    0x30 <= code && code <= 0x39
}

/// Whether every character of `text` is a digit.
pub fn all_digits(text: &str) -> (digits: bool)
    ensures
        digits == is_digits(text@),
{
    let len: usize = text.unicode_len();
    let mut index: usize = 0;
    while index < len
        invariant
            index <= len,
            len == text@.len(),
            forall|k: int| 0 <= k < index ==> is_digit(#[trigger] text@[k]),
        decreases len - index,
    {
        if !digit(text.get_char(index)) {
            return false;
        }
        index = index + 1;
    }
    true
}

/// Whether two texts are the same.
pub fn same_text(left: &str, right: &str) -> (same: bool)
    ensures
        same == (left@ == right@),
{
    let len: usize = left.unicode_len();
    if right.unicode_len() != len {
        return false;
    }
    let mut index: usize = 0;
    while index < len
        invariant
            index <= len,
            len == left@.len(),
            len == right@.len(),
            forall|k: int| 0 <= k < index ==> left@[k] == right@[k],
        decreases len - index,
    {
        if left.get_char(index) != right.get_char(index) {
            return false;
        }
        index = index + 1;
    }
    assert(left@ =~= right@);
    true
}

/// Whether `text` ends with `suffix`.
pub fn ends_with(text: &str, suffix: &str) -> (found: bool)
    ensures
        found == has_suffix(text@, suffix@),
{
    let text_len: usize = text.unicode_len();
    let suffix_len: usize = suffix.unicode_len();
    if suffix_len > text_len {
        return false;
    }
    let offset: usize = text_len - suffix_len;
    let mut index: usize = 0;
    while index < suffix_len
        invariant
            index <= suffix_len,
            offset + suffix_len == text_len,
            text_len == text@.len(),
            suffix_len == suffix@.len(),
            forall|k: int| 0 <= k < index ==> text@[offset + k] == suffix@[k],
        decreases suffix_len - index,
    {
        if text.get_char(offset + index) != suffix.get_char(index) {
            assert(text@.subrange(offset as int, text_len as int)[index as int]
                != suffix@[index as int]);
            return false;
        }
        index = index + 1;
    }
    assert(text@.subrange(offset as int, text_len as int) =~= suffix@);
    true
}

/// The digits of `text`, in their order; everything else is left out.
pub fn keep_digits(text: &str) -> (digits: String)
    ensures
        digits@ == digits_of(text@),
{
    let len: usize = text.unicode_len();
    let mut digits: String = String::new();
    let mut index: usize = 0;
    assert(text@.take(0) =~= Seq::<char>::empty());
    while index < len
        invariant
            index <= len,
            len == text@.len(),
            digits@ == digits_of(text@.take(index as int)),
        decreases len - index,
    {
        let ghost upto = text@.take(index + 1);
        assert(upto.drop_last() =~= text@.take(index as int));
        assert(upto.last() == text@[index as int]);
        if digit(text.get_char(index)) {
            let ghost before = digits@;
            let one = text.substring_char(index, index + 1);
            assert(one@ =~= seq![text@[index as int]]);
            digits.append(one);
            assert(digits@ =~= before.push(text@[index as int]));
        }
        index = index + 1;
    }
    assert(text@.take(len as int) =~= text@);
    digits
}

} // verus!
