//! What the lines of a server mean, told by their words.
use vstd::prelude::*;
use vstd::utf8::valid_utf8;

use crate::header::{command_of, header_of, header_of_line, msg_header_of, Header};
use crate::laws::{lemma_command, lemma_split_spaced, spaced};
use crate::text::{
    all_digits, decimal, digits_value, is_digit, is_white_space, lemma_trimmed, parse_decimal,
    split_space, trimmed, unsigned,
};

verus! {

/// The shortest numbers: one digit stands for itself, with a plus sign or without, and there is no
/// number without a digit.
pub proof fn one_digit_is_a_number(c: char)
    ensures
        parse_decimal(Seq::empty()) is None,
        parse_decimal(seq!['+']) is None,
        '0' <= c <= '9' ==> parse_decimal(seq![c]) == Some((c as nat - '0' as nat) as usize),
        '0' <= c <= '9' ==> parse_decimal(seq!['+', c]) == Some((c as nat - '0' as nat) as usize),
        !('0' <= c <= '9') ==> parse_decimal(seq![c]) is None,
        !('0' <= c <= '9') ==> parse_decimal(seq!['+', c]) is None,
{
    let one = seq![c];
    assert(seq!['+'].skip(1) =~= Seq::<char>::empty());
    assert(seq!['+', c].skip(1) =~= one);
    assert(one.drop_last() =~= Seq::<char>::empty());
    reveal_with_fuel(digits_value, 2);
    assert(one[0] == c);
    assert(is_digit(c) ==> all_digits(one));
}

/// Every further character is one more digit, or there is no number: its value is ten times that of
/// what is before it, and the digit, as long as it can be held.
pub proof fn numbers_are_read_digit_by_digit(s: Seq<char>, c: char)
    requires
        s.len() > 0,
        s != seq!['+'],
    ensures
        parse_decimal(s.push(c)) == match parse_decimal(s) {
            Some(value) => if '0' <= c <= '9' && value * 10 + (c as nat - '0' as nat)
                <= usize::MAX {
                Some((value * 10 + (c as nat - '0' as nat)) as usize)
            } else {
                None
            },
            None => None,
        },
{
    let digits = unsigned(s);
    let more = unsigned(s.push(c));
    assert(more =~= digits.push(c));
    assert(digits.len() == 0 ==> s =~= seq!['+']);
    assert(more.drop_last() =~= digits);
    assert(more.last() == c);
    if all_digits(more) {
        assert forall|i: int| 0 <= i < digits.len() implies is_digit(#[trigger] digits[i]) by {
            assert(more[i] == digits[i]);
        }
        assert(is_digit(more[more.len() - 1]));
    }
    if all_digits(digits) && is_digit(c) {
        assert forall|i: int| 0 <= i < more.len() implies is_digit(#[trigger] more[i]) by {
            if i < digits.len() {
                assert(more[i] == digits[i]);
            }
        }
    }
}

/// A number is written without leading zeros.
pub proof fn numbers_have_no_leading_zeros(n: nat)
    ensures
        n < 10 ==> decimal(n).len() == 1,
        n >= 10 ==> decimal(n).len() > 1 && decimal(n)[0] != '0',
    decreases n,
{
    if n >= 10 {
        numbers_have_no_leading_zeros(n / 10);
        assert(decimal(n)[0] == decimal(n / 10)[0]);
    }
}

/// What is left of a text without the white space at its two ends is what stands between it.
pub proof fn what_stands_between_white_space_is_left(a: Seq<char>, s: Seq<char>, b: Seq<char>)
    requires
        forall|i: int| 0 <= i < a.len() ==> is_white_space(#[trigger] a[i]),
        forall|i: int| 0 <= i < b.len() ==> is_white_space(#[trigger] b[i]),
        s.len() > 0 ==> !is_white_space(s[0]) && !is_white_space(s.last()),
    ensures
        trimmed(a + s + b) == s,
{
    let all = a + s + b;
    let n = a.len() as int;
    let m = (a.len() + s.len()) as int;
    assert forall|i: int| m <= i < all.len() implies is_white_space(#[trigger] all[i]) by {
        assert(all[i] == b[i - m]);
    }
    assert forall|i: int| 0 <= i < n implies is_white_space(#[trigger] all[i]) by {
        assert(all[i] == a[i]);
    }
    lemma_trimmed(all, n, m);
    assert(all.subrange(n, m) =~= s);
}

/// A text is cut at its first space, and at no other place.
pub proof fn text_is_cut_at_its_first_space(a: Seq<char>, b: Seq<char>)
    requires
        !a.contains(' '),
    ensures
        split_space(a + seq![' '] + b) == Some((a, b)),
        split_space(a) is None,
{
    lemma_split_spaced(a, b);
    assert(a + seq![' '] + b =~= spaced(a, b));
    a.index_of_first_ensures(' ');
}

/// A line is told by its first word, whatever follows it: there are five words that a line may begin
/// with, and every other line is no header. A line with nothing in it is no header either, but no
/// error; one of white space is an error.
pub proof fn line_is_told_by_its_first_word(word: Seq<char>, text: Seq<char>)
    requires
        word.len() > 0,
        !word.contains(' '),
        !is_white_space(word[0]),
        !is_white_space(word.last()),
    ensures
        header_of_line(Seq::empty()) is Blank,
        text.len() > 0 && trimmed(text).len() == 0 ==> header_of_line(text) is Invalid,
        forall|line: Seq<char>|
            line == word || line == word + seq![' '] + text ==> {
                let header = #[trigger] header_of_line(line);
                &&& header is Ping <==> word == seq!['P', 'I', 'N', 'G']
                &&& header is ServerOk <==> word == seq!['+', 'O', 'K']
                &&& header is ServerErr <==> word == seq!['-', 'E', 'R', 'R']
                &&& header is Info <==> word == seq!['I', 'N', 'F', 'O']
                &&& header is Msg ==> word == seq!['M', 'S', 'G']
                &&& !(header is NotUtf8) && !(header is Blank)
            },
        word == seq!['M', 'S', 'G'] ==> header_of_line(word) is Invalid,
{
    reveal_strlit("PING");
    reveal_strlit("INFO");
    reveal_strlit("-ERR");
    reveal_strlit("+OK");
    reveal_strlit("MSG");
    assert("PING"@ =~= seq!['P', 'I', 'N', 'G']);
    assert("INFO"@ =~= seq!['I', 'N', 'F', 'O']);
    assert("-ERR"@ =~= seq!['-', 'E', 'R', 'R']);
    assert("+OK"@ =~= seq!['+', 'O', 'K']);
    assert("MSG"@ =~= seq!['M', 'S', 'G']);
    assert("PING"@[0] == 'P' && "INFO"@[0] == 'I' && "-ERR"@[0] == '-' && "+OK"@[0] == '+'
        && "MSG"@[0] == 'M');
    lemma_command(word, text);
    assert(word + seq![' '] + text =~= spaced(word, text));
    let none = Seq::<char>::empty();
    text_is_cut_at_its_first_space(none, none);
    if trimmed(text).len() == 0 {
        assert(trimmed(text) =~= none);
    }
    assert(command_of(word) == (word, none));
}

/// An INFO line hands on what follows its command: every character up to the last one that is not
/// white space.
pub proof fn info_hands_on_what_follows(text: Seq<char>)
    requires
        text.len() > 0,
        !is_white_space(text.last()),
    ensures
        header_of_line(seq!['I', 'N', 'F', 'O', ' '] + text) == Header::Info(text),
{
    reveal_strlit("PING");
    reveal_strlit("INFO");
    assert("PING"@[0] == 'P' && "INFO"@[0] == 'I');
    assert(seq!['I', 'N', 'F', 'O', ' '] + text =~= spaced("INFO"@, text));
    lemma_command("INFO"@, text);
}

proof fn lemma_msg_args(args: Seq<char>)
    requires
        args.len() > 0,
        !is_white_space(args.last()),
    ensures
        header_of_line(seq!['M', 'S', 'G', ' '] + args) == msg_header_of(args),
{
    reveal_strlit("PING");
    reveal_strlit("INFO");
    reveal_strlit("-ERR");
    reveal_strlit("+OK");
    reveal_strlit("MSG");
    assert("PING"@[0] == 'P' && "INFO"@[0] == 'I' && "-ERR"@[0] == '-' && "+OK"@[0] == '+'
        && "MSG"@[0] == 'M');
    assert(seq!['M', 'S', 'G', ' '] + args =~= spaced("MSG"@, args));
    lemma_command("MSG"@, args);
}

/// The words of a MSG line are a topic, the number of the subscription, perhaps a topic to reply to,
/// and a length. The line announces that message where both numbers are numbers, and is an error
/// otherwise, or where there are fewer words.
pub proof fn msg_line_is_told_by_its_words(
    topic: Seq<char>,
    sid: Seq<char>,
    reply_to: Seq<char>,
    len: Seq<char>,
)
    requires
        !topic.contains(' '),
        !sid.contains(' '),
        !reply_to.contains(' '),
        len.len() > 0,
        !is_white_space(len.last()),
    ensures
        ({
            let header = match (parse_decimal(sid), parse_decimal(len)) {
                (Some(sid), Some(len)) => Header::Msg { topic, sid, len },
                _ => Header::Invalid,
            };
            let msg = seq!['M', 'S', 'G', ' '];
            let space = seq![' '];
            &&& header_of_line(msg + (topic + space + (sid + space + (reply_to + space + len))))
                == header
            &&& !len.contains(' ') ==> header_of_line(msg + (topic + space + (sid + space + len)))
                == header
            &&& !len.contains(' ') ==> header_of_line(msg + (topic + space + len)) is Invalid
            &&& !len.contains(' ') ==> header_of_line(msg + len) is Invalid
        }),
{
    let space = seq![' '];
    let long = reply_to + space + len;
    text_is_cut_at_its_first_space(reply_to, len);
    text_is_cut_at_its_first_space(sid, long);
    text_is_cut_at_its_first_space(topic, sid + space + long);
    lemma_msg_args(topic + space + (sid + space + long));
    text_is_cut_at_its_first_space(sid, len);
    text_is_cut_at_its_first_space(topic, sid + space + len);
    lemma_msg_args(topic + space + (sid + space + len));
    text_is_cut_at_its_first_space(topic, len);
    lemma_msg_args(topic + space + len);
    lemma_msg_args(len);
    if !len.contains(' ') {
        text_is_cut_at_its_first_space(len, len);
    }
}

/// A packet is no header where its bytes are not UTF-8, and only there.
pub proof fn packet_must_be_utf8(bytes: Seq<u8>)
    ensures
        header_of(bytes + seq![13u8, 10u8]) is NotUtf8 <==> !valid_utf8(bytes + seq![13u8, 10u8]),
{
}

} // verus!
