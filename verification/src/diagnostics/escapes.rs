//! The codes that switch colors on and off.

use vstd::prelude::*;

verus! {

/// The text switches no colors.
pub open spec fn is_plain(text: Seq<char>) -> bool {
    !text.contains('\x1b')
}

/// The code that a text begins with; nothing where it begins with none.
pub open spec fn leading_code(text: Seq<char>) -> Seq<char> {
    if "\x1b[0m"@.is_prefix_of(text) {
        "\x1b[0m"@
    } else if "\x1b[1;31m"@.is_prefix_of(text) {
        "\x1b[1;31m"@
    } else if "\x1b[1;33m"@.is_prefix_of(text) {
        "\x1b[1;33m"@
    } else if "\x1b[36m"@.is_prefix_of(text) {
        "\x1b[36m"@
    } else if "\x1b[2m"@.is_prefix_of(text) {
        "\x1b[2m"@
    } else {
        Seq::empty()
    }
}

/// The text is one of the codes.
pub open spec fn is_code(text: Seq<char>) -> bool {
    ||| text == "\x1b[0m"@
    ||| text == "\x1b[1;31m"@
    ||| text == "\x1b[1;33m"@
    ||| text == "\x1b[36m"@
    ||| text == "\x1b[2m"@
}

/// The text without the codes.
pub open spec fn stripped(text: Seq<char>) -> Seq<char>
    decreases text.len(),
{
    let code = leading_code(text);
    if text.len() == 0 {
        text
    } else if code.len() > 0 {
        stripped(text.skip(code.len() as int))
    } else {
        seq![text[0]] + stripped(text.skip(1))
    }
}

/// The codes of a text, in order.
pub open spec fn codes(text: Seq<char>) -> Seq<Seq<char>>
    decreases text.len(),
{
    let code = leading_code(text);
    if text.len() == 0 {
        Seq::empty()
    } else if code.len() > 0 {
        seq![code] + codes(text.skip(code.len() as int))
    } else {
        codes(text.skip(1))
    }
}

/// Every escape of the text begins one of the codes.
pub open spec fn is_complete(text: Seq<char>) -> bool
    decreases text.len(),
{
    let code = leading_code(text);
    if text.len() == 0 {
        true
    } else if code.len() > 0 {
        is_complete(text.skip(code.len() as int))
    } else {
        text[0] != '\x1b' && is_complete(text.skip(1))
    }
}

/// The text without its codes is the plain one.
pub open spec fn shows(text: Seq<char>, plain: Seq<char>) -> bool {
    is_complete(text) && stripped(text) == plain
}

proof fn lemma_codes()
    ensures
        "\x1b[0m"@ =~= seq!['\x1b', '[', '0', 'm'],
        "\x1b[1;31m"@ =~= seq!['\x1b', '[', '1', ';', '3', '1', 'm'],
        "\x1b[1;33m"@ =~= seq!['\x1b', '[', '1', ';', '3', '3', 'm'],
        "\x1b[36m"@ =~= seq!['\x1b', '[', '3', '6', 'm'],
        "\x1b[2m"@ =~= seq!['\x1b', '[', '2', 'm'],
{
    reveal_strlit("\x1b[0m");
    reveal_strlit("\x1b[1;31m");
    reveal_strlit("\x1b[1;33m");
    reveal_strlit("\x1b[36m");
    reveal_strlit("\x1b[2m");
}

/// A code is the one that a text begins with where it stands at the front.
proof fn lemma_leading_code(code: Seq<char>, rest: Seq<char>)
    requires
        is_code(code),
    ensures
        leading_code(code + rest) == code,
        code.len() > 0,
        code[0] == '\x1b',
{
    lemma_codes();
    let text = code + rest;
    assert(code.is_prefix_of(text)) by {
        assert(code =~= text.subrange(0, code.len() as int));
    }
    let reset = "\x1b[0m"@;
    let red = "\x1b[1;31m"@;
    let yellow = "\x1b[1;33m"@;
    let cyan = "\x1b[36m"@;
    assert(text[0] == code[0] && text[1] == code[1] && text[2] == code[2]);
    assert(reset.is_prefix_of(text) ==> text[2] == reset[2]);
    assert(red.is_prefix_of(text) ==> text[2] == red[2] && text[5] == red[5]);
    assert(yellow.is_prefix_of(text) ==> text[2] == yellow[2] && text[5] == yellow[5]);
    assert(cyan.is_prefix_of(text) ==> text[2] == cyan[2]);
    assert(code.len() > 5 ==> text[5] == code[5]);
}

/// What a text begins with is nothing or a code, and a code begins with an escape.
proof fn lemma_code_or_nothing(text: Seq<char>)
    ensures
        leading_code(text).len() > 0 ==> {
            &&& is_code(leading_code(text))
            &&& leading_code(text).len() <= text.len()
            &&& text =~= leading_code(text) + text.skip(leading_code(text).len() as int)
            &&& text[0] == '\x1b'
        },
        leading_code(text).len() == 0 ==> leading_code(text) == Seq::<char>::empty(),
{
    lemma_codes();
    let code = leading_code(text);
    if code.len() > 0 {
        assert(code.is_prefix_of(text));
        assert(text.subrange(0, code.len() as int)[0] == text[0]);
    }
}

/// Texts one behind the other without their codes are the texts without codes one
/// behind the other, where the first has no code that is cut off.
pub proof fn lemma_stripped_append(first: Seq<char>, second: Seq<char>)
    requires
        is_complete(first),
    ensures
        stripped(first + second) == stripped(first) + stripped(second),
        codes(first + second) == codes(first) + codes(second),
        is_complete(second) ==> is_complete(first + second),
    decreases first.len(),
{
    let both = first + second;
    if first.len() == 0 {
        assert(both =~= second);
        assert(stripped(first) + stripped(second) =~= stripped(second));
        assert(codes(first) + codes(second) =~= codes(second));
    } else {
        let code = leading_code(first);
        lemma_code_or_nothing(first);
        if code.len() > 0 {
            let rest = first.skip(code.len() as int);
            assert(both =~= code + (rest + second));
            lemma_leading_code(code, rest + second);
            assert(both.skip(code.len() as int) =~= rest + second);
            lemma_stripped_append(rest, second);
            assert(codes(both) =~= codes(first) + codes(second));
        } else {
            lemma_code_or_nothing(both);
            assert(both[0] == first[0]);
            assert(both.skip(1) =~= first.skip(1) + second);
            lemma_stripped_append(first.skip(1), second);
            assert(stripped(both) =~= stripped(first) + stripped(second));
        }
    }
}

/// A plain text holds no codes.
pub proof fn lemma_plain(text: Seq<char>)
    requires
        is_plain(text),
    ensures
        shows(text, text),
        codes(text).len() == 0,
    decreases text.len(),
{
    if text.len() > 0 {
        lemma_code_or_nothing(text);
        assert(text.contains(text[0]));
        let rest = text.skip(1);
        assert(is_plain(rest)) by {
            if rest.contains('\x1b') {
                let i = choose|i: int| 0 <= i < rest.len() && rest[i] == '\x1b';
                assert(text[i + 1] == '\x1b');
            }
        }
        lemma_plain(rest);
        assert(stripped(text) =~= text);
    }
}

/// Nothing is left of a code.
pub proof fn lemma_code(code: Seq<char>)
    requires
        is_code(code),
    ensures
        shows(code, Seq::empty()),
        codes(code) == seq![code],
{
    assert(code + Seq::<char>::empty() =~= code);
    lemma_leading_code(code, Seq::empty());
    let rest = code.skip(code.len() as int);
    assert(rest =~= Seq::empty());
    assert(stripped(rest) == rest && is_complete(rest) && codes(rest).len() == 0);
    assert(codes(code) =~= seq![code]);
}

/// What is left without the codes is plain.
pub proof fn lemma_stripped_is_plain(text: Seq<char>)
    requires
        is_complete(text),
    ensures
        is_plain(stripped(text)),
    decreases text.len(),
{
    if text.len() > 0 {
        let code = leading_code(text);
        if code.len() > 0 {
            lemma_code_or_nothing(text);
            lemma_stripped_is_plain(text.skip(code.len() as int));
        } else {
            let rest = stripped(text.skip(1));
            lemma_stripped_is_plain(text.skip(1));
            if stripped(text).contains('\x1b') {
                let i = choose|i: int|
                    0 <= i < stripped(text).len() && stripped(text)[i] == '\x1b';
                assert(i > 0);
                assert(rest[i - 1] == '\x1b');
            }
        }
    }
}

/// Texts one behind the other show what they show, one behind the other.
pub proof fn lemma_shows_append(
    first: Seq<char>,
    first_plain: Seq<char>,
    second: Seq<char>,
    second_plain: Seq<char>,
)
    requires
        shows(first, first_plain),
        shows(second, second_plain),
    ensures
        shows(first + second, first_plain + second_plain),
{
    lemma_stripped_append(first, second);
}

/// A text with a plain one behind it.
pub proof fn lemma_shows_plain(first: Seq<char>, first_plain: Seq<char>, second: Seq<char>)
    requires
        shows(first, first_plain),
        is_plain(second),
    ensures
        shows(first + second, first_plain + second),
{
    lemma_plain(second);
    lemma_stripped_append(first, second);
}

} // verus!
