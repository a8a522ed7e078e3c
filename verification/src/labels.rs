//! Account labels.
use vstd::prelude::*;
use crate::error::{AppError, bad_request, bad_request_of, failure};
use crate::keys::{is_word, is_word_char, valid_word};
use crate::text::{chars_of, lower, lower_char, slice_of, to_lower, trim, trimmed};

verus! {

pub open spec fn bad_label() -> Seq<char> {
    "label must be 1-32 ASCII letters, numbers, '-' or '_'"@
}

/// A label trimmed and in lower case.
pub open spec fn normal_label(label: Seq<char>) -> Seq<char> {
    lower(trimmed(label))
}

/// A label that an account can have: 1 to 32 ASCII letters, digits, `-` or `_`.
pub open spec fn is_label(s: Seq<char>) -> bool {
    is_word(s, 32)
}

/// A label in its normal form, refused where that form is no label.
pub fn normalize_label(label: &str) -> (r: Result<String, AppError>)
    ensures
        r matches Ok(value) ==> value@ == normal_label(label@),
        r is Ok <==> is_label(normal_label(label@)),
        r is Err ==> failure(r) == bad_request_of(bad_label()),
{
    let value = to_lower(&trim(label));
    if valid_word(&value, 32) {
        Ok(value)
    } else {
        Err(bad_request("label must be 1-32 ASCII letters, numbers, '-' or '_'"))
    }
}

/// The normal form of a label in normal form is that label.
pub proof fn normal_label_is_stable(label: Seq<char>)
    requires
        is_label(normal_label(label)),
    ensures
        normal_label(normal_label(label)) == normal_label(label),
{
    let value = normal_label(label);
    assert(is_word_char(value[0]));
    assert(is_word_char(value[value.len() - 1]));
    assert(trimmed(value) == value) by {
        assert(crate::text::trimmed_start(value) == value);
        assert(crate::text::trimmed_end(value) == value);
    }
    assert(lower(value) =~= value) by {
        assert forall|i: int| 0 <= i < value.len() implies lower_char(value[i]) == value[i] by {
            assert(value[i] == lower_char(trimmed(label)[i]));
        }
    }
}

/// `s` without the spaces at its start.
pub open spec fn spaces_start(s: Seq<char>) -> Seq<char>
    decreases s.len(),
{
    if s.len() > 0 && s[0] == ' ' {
        spaces_start(s.drop_first())
    } else {
        s
    }
}

/// `s` without the spaces at its end.
pub open spec fn spaces_end(s: Seq<char>) -> Seq<char>
    decreases s.len(),
{
    if s.len() > 0 && s.last() == ' ' {
        spaces_end(s.drop_last())
    } else {
        s
    }
}

/// A stored label without the spaces at either end.
pub open spec fn label_text(s: Seq<char>) -> Seq<char> {
    spaces_end(spaces_start(s))
}

pub fn trim_spaces(s: &str) -> (r: String)
    ensures
        r@ == label_text(s@),
{
    let chars = chars_of(s);
    let mut from: usize = 0;
    assert(s@.skip(0) =~= s@);
    while from < chars.len() && chars[from] == ' '
        invariant
            from <= chars.len(),
            chars@ == s@,
            spaces_start(s@) == spaces_start(s@.skip(from as int)),
        decreases chars.len() - from,
    {
        assert(s@.skip(from as int).drop_first() =~= s@.skip(from as int + 1));
        from += 1;
    }
    let mut to: usize = chars.len();
    while to > from && chars[to - 1] == ' '
        invariant
            from <= to <= chars.len(),
            chars@ == s@,
            spaces_start(s@) == s@.skip(from as int),
            spaces_end(s@.skip(from as int)) == spaces_end(s@.subrange(from as int, to as int)),
        decreases to,
    {
        assert(s@.subrange(from as int, to as int).drop_last() =~= s@.subrange(
            from as int,
            to as int - 1,
        ));
        to -= 1;
    }
    slice_of(&chars, from, to)
}

/// A label has from one to thirty-two characters, each a letter, a digit, a dash or an underscore, and
/// in its normal form no white space round it and no capital letter.
pub proof fn labels_are_short_words(label: Seq<char>)
    ensures
        is_label(label) <==> 1 <= label.len() <= 32 && forall|i: int|
            0 <= i < label.len() ==> ('0' <= #[trigger] label[i] <= '9' || 'a' <= label[i] <= 'z'
                || 'A' <= label[i] <= 'Z' || label[i] == '_' || label[i] == '-'),
        normal_label(label) == lower(trimmed(label)),
{
    if is_label(label) {
        assert forall|i: int| 0 <= i < label.len() implies ('0' <= #[trigger] label[i] <= '9'
            || 'a' <= label[i] <= 'z' || 'A' <= label[i] <= 'Z' || label[i] == '_' || label[i]
            == '-') by {
            assert(is_word_char(label[i]));
        }
    }
}

proof fn no_space_comes_first(s: Seq<char>)
    ensures
        spaces_start(s).len() > 0 ==> spaces_start(s)[0] != ' ',
    decreases s.len(),
{
    if s.len() > 0 && s[0] == ' ' {
        no_space_comes_first(s.drop_first());
    }
}

proof fn no_space_comes_last(s: Seq<char>)
    ensures
        spaces_end(s).len() > 0 ==> spaces_end(s).last() != ' ' && spaces_end(s)[0] == s[0],
        spaces_end(s).len() <= s.len(),
    decreases s.len(),
{
    if s.len() > 0 && s.last() == ' ' {
        no_space_comes_last(s.drop_last());
    }
}

/// The text of a label has no space at its start and none at its end, and a text without them is kept.
pub proof fn label_texts_have_no_outer_spaces(s: Seq<char>)
    ensures
        label_text(s).len() > 0 ==> label_text(s)[0] != ' ' && label_text(s).last() != ' ',
        s.len() > 0 && s[0] != ' ' && s.last() != ' ' ==> label_text(s) == s,
{
    no_space_comes_first(s);
    no_space_comes_last(spaces_start(s));
}

} // verus!
