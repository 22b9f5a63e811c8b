//! That the two long messages fit the buffers that are made for them.
use vstd::arithmetic::power::pow;
use vstd::prelude::*;
use vstd::utf8::{encode_utf8, is_ascii_chars, is_ascii_chars_encode_utf8};

use crate::auth::{NoopAuthenticator, TokenAuthenticator, UserPwdAuthenticator};
use crate::bounded::BoundedString;
use crate::collections::Heapless;
use crate::json::{
    info_json, info_members, is_plain, is_plain_info, listed, member, noop_json, object, quoted,
    signed, token_json, truth, user_pwd_json,
};
use crate::laws::{
    can_read_all, header_arrives, lemma_encode_add, line_without_return_is_undelimited,
    packet_says_what_its_line_says, pending, plain_lines_are_read_back, read_all, singles, spaced,
};
use crate::limits::{delimiter, AUTH_MAX_STR_LEN, INFO_MAX_STR_LEN, PKG_NAME, PKG_VERSION};
use crate::message::NatsInfoMsg;
use crate::stream::{Event, FramerState};
use crate::text::{all_digits, decimal, decimal_is_read_back, is_digit, lemma_decimal_len};

verus! {

/// The number of bytes of a text.
pub open spec fn size(text: Seq<char>) -> nat {
    encode_utf8(text).len()
}

/// The number of bytes of texts without what stands between them.
spec fn sizes(texts: Seq<Seq<char>>) -> nat
    decreases texts.len(),
{
    if texts.len() == 0 {
        0
    } else {
        sizes(texts.drop_last()) + size(texts.last())
    }
}

proof fn lemma_size_add(a: Seq<char>, b: Seq<char>)
    ensures
        size(a + b) == size(a) + size(b),
{
    lemma_encode_add(a, b);
}

proof fn lemma_size_ascii(text: Seq<char>)
    requires
        is_ascii_chars(text),
    ensures
        size(text) == text.len(),
{
    is_ascii_chars_encode_utf8(text);
}

proof fn lemma_size_quoted(text: Seq<char>)
    ensures
        size(quoted(text)) == size(text) + 2,
{
    lemma_size_ascii(seq!['"']);
    lemma_size_add(seq!['"'], text);
    lemma_size_add(seq!['"'] + text, seq!['"']);
}

proof fn lemma_size_member(key: Seq<char>, value: Seq<char>)
    requires
        is_ascii_chars(key),
    ensures
        size(member(key, value)) == key.len() + 3 + size(value),
        size(member(key, quoted(value))) == key.len() + 5 + size(value),
{
    lemma_size_ascii(key);
    lemma_size_ascii(seq![':']);
    lemma_size_quoted(key);
    lemma_size_quoted(value);
    lemma_size_add(quoted(key), seq![':']);
    lemma_size_add(quoted(key) + seq![':'], value);
    lemma_size_add(quoted(key) + seq![':'], quoted(value));
}

proof fn lemma_size_listed(members: Seq<Seq<char>>)
    requires
        members.len() > 0,
    ensures
        size(listed(members)) == sizes(members) + members.len() - 1,
    decreases members.len(),
{
    let head = members.drop_last();
    if members.len() == 1 {
        assert(sizes(head) == 0);
    } else {
        lemma_size_listed(head);
        lemma_size_ascii(seq![',']);
        lemma_size_add(listed(head), seq![',']);
        lemma_size_add(listed(head) + seq![','], members.last());
    }
}

proof fn lemma_size_object(members: Seq<Seq<char>>)
    requires
        members.len() > 0,
    ensures
        size(object(members)) == sizes(members) + members.len() + 1,
{
    lemma_size_listed(members);
    lemma_size_ascii(seq!['{']);
    lemma_size_ascii(seq!['}']);
    lemma_size_add(seq!['{'], listed(members));
    lemma_size_add(seq!['{'] + listed(members), seq!['}']);
}

proof fn lemma_size_signed(n: int)
    requires
        i32::MIN <= n <= i32::MAX,
    ensures
        size(signed(n)) <= 11,
        n == i32::MIN ==> size(signed(n)) == 11,
        all_digits(decimal(if n < 0 {
            (-n) as nat
        } else {
            n as nat
        })),
{
    let digits = if n < 0 {
        (-n) as nat
    } else {
        n as nat
    };
    lemma_decimal_len(digits, 10);
    lemma_decimal_len(digits, 9);
    assert(pow(10, 10) == 10_000_000_000 && pow(10, 9) == 1_000_000_000) by {
        reveal_with_fuel(pow, 11);
    }
    decimal_is_read_back(digits);
    assert(is_ascii_chars(decimal(digits))) by {
        assert(forall|i: int|
            0 <= i < decimal(digits).len() ==> is_digit(#[trigger] decimal(digits)[i]));
    }
    lemma_size_ascii(decimal(digits));
    lemma_size_ascii(seq!['-']);
    lemma_size_add(seq!['-'], decimal(digits));
}

proof fn lemma_size_truth(b: bool)
    ensures
        size(truth(b)) == (if b {
            4nat
        } else {
            5nat
        }),
{
    reveal_strlit("true");
    reveal_strlit("false");
    lemma_size_ascii("true"@);
    lemma_size_ascii("false"@);
}

proof fn lemma_usual_members(name: Seq<char>, version: Seq<char>)
    ensures
        size(member("verbose"@, truth(false))) == 15,
        size(member("pedantic"@, truth(false))) == 16,
        size(member("tls_required"@, truth(false))) == 20,
        size(member("lang"@, quoted("rust"@))) == 13,
        size(member("name"@, quoted(name))) == 9 + size(name),
        size(member("version"@, quoted(version))) == 12 + size(version),
{
    reveal_strlit("verbose");
    reveal_strlit("pedantic");
    reveal_strlit("tls_required");
    reveal_strlit("lang");
    reveal_strlit("rust");
    reveal_strlit("name");
    reveal_strlit("version");
    lemma_size_truth(false);
    lemma_size_ascii("rust"@);
    lemma_size_member("verbose"@, truth(false));
    lemma_size_member("pedantic"@, truth(false));
    lemma_size_member("tls_required"@, truth(false));
    lemma_size_member("lang"@, "rust"@);
    lemma_size_member("name"@, name);
    lemma_size_member("version"@, version);
}

proof fn lemma_package()
    ensures
        size(PKG_NAME@) == 12,
        size(PKG_VERSION@) == 5,
{
    reveal_strlit("embassy-nats");
    reveal_strlit("0.1.0");
    lemma_size_ascii(PKG_NAME@);
    lemma_size_ascii(PKG_VERSION@);
}

/// The body of a CONNECT message without credentials fits the room for it.
pub proof fn noop_body_fits(auth: NoopAuthenticator)
    requires
        auth.presents(),
    ensures
        size(noop_json(auth)) == 92 + size(PKG_NAME@) + size(PKG_VERSION@),
        size(noop_json(auth)) <= AUTH_MAX_STR_LEN,
{
    let members = seq![
        member("verbose"@, truth(auth.verbose)),
        member("pedantic"@, truth(auth.pedantic)),
        member("tls_required"@, truth(auth.tls_required)),
        member("lang"@, quoted(auth.lang@)),
        member("name"@, quoted(auth.name@)),
        member("version"@, quoted(auth.version@)),
    ];
    lemma_package();
    lemma_usual_members(auth.name@, auth.version@);
    lemma_size_object(members);
    reveal_with_fuel(sizes, 7);
}

/// The body of a CONNECT message with a user name and a password that have nothing to escape fits
/// the room for it, however long the two may be: with all of its strings but the language empty it
/// takes 112 bytes.
pub proof fn user_pwd_body_fits(auth: UserPwdAuthenticator, user: Seq<char>, pwd: Seq<char>)
    requires
        auth.presents(user, pwd),
        UserPwdAuthenticator::holds(user, pwd),
        is_plain(user),
        is_plain(pwd),
    ensures
        size(user_pwd_json(auth)) == 112 + size(user) + size(pwd) + size(PKG_NAME@) + size(
            PKG_VERSION@,
        ),
        size(user_pwd_json(auth)) <= AUTH_MAX_STR_LEN,
{
    let members = seq![
        member("verbose"@, truth(auth.verbose)),
        member("pedantic"@, truth(auth.pedantic)),
        member("tls_required"@, truth(auth.tls_required)),
        member("user"@, quoted(auth.user@)),
        member("pass"@, quoted(auth.pass@)),
        member("lang"@, quoted(auth.lang@)),
        member("name"@, quoted(auth.name@)),
        member("version"@, quoted(auth.version@)),
    ];
    reveal_strlit("user");
    reveal_strlit("pass");
    lemma_size_member("user"@, user);
    lemma_size_member("pass"@, pwd);
    lemma_package();
    lemma_usual_members(auth.name@, auth.version@);
    lemma_size_object(members);
    reveal_with_fuel(sizes, 9);
}

/// The body of a CONNECT message with a token that has nothing to escape fits the room for it,
/// however long the token may be.
pub proof fn token_body_fits(auth: TokenAuthenticator, token: Seq<char>)
    requires
        auth.presents(token),
        TokenAuthenticator::holds(token),
        is_plain(token),
    ensures
        size(token_json(auth)) == 103 + size(token) + size(PKG_NAME@) + size(PKG_VERSION@),
        size(token_json(auth)) <= AUTH_MAX_STR_LEN,
{
    let members = seq![
        member("verbose"@, truth(auth.verbose)),
        member("pedantic"@, truth(auth.pedantic)),
        member("tls_required"@, truth(auth.tls_required)),
        member("token"@, quoted(auth.token@)),
        member("lang"@, quoted(auth.lang@)),
        member("name"@, quoted(auth.name@)),
        member("version"@, quoted(auth.version@)),
    ];
    reveal_strlit("token");
    lemma_size_member("token"@, token);
    lemma_package();
    lemma_usual_members(auth.name@, auth.version@);
    lemma_size_object(members);
    reveal_with_fuel(sizes, 8);
}

proof fn lemma_info_sizes(info: NatsInfoMsg)
    ensures
        ({
            let members = info_members(info);
            &&& size(members[0]) == 14 + size(info.server_id@)
            &&& size(members[1]) == 16 + size(info.server_name@)
            &&& size(members[2]) == 12 + size(info.version@)
            &&& size(members[3]) == 7 + size(info.go@)
            &&& size(members[4]) == 9 + size(info.host@)
            &&& size(members[5]) == 7 + size(signed(info.port as int))
            &&& size(members[6]) == 10 + size(truth(info.headers))
            &&& size(members[7]) == 14 + size(signed(info.max_payload as int))
            &&& size(members[8]) == 8 + size(signed(info.proto as int))
        }),
{
    reveal_strlit("server_id");
    reveal_strlit("server_name");
    reveal_strlit("version");
    reveal_strlit("go");
    reveal_strlit("host");
    reveal_strlit("port");
    reveal_strlit("headers");
    reveal_strlit("max_payload");
    reveal_strlit("proto");
    lemma_size_member("server_id"@, info.server_id@);
    lemma_size_member("server_name"@, info.server_name@);
    lemma_size_member("version"@, info.version@);
    lemma_size_member("go"@, info.go@);
    lemma_size_member("host"@, info.host@);
    lemma_size_member("port"@, signed(info.port as int));
    lemma_size_member("headers"@, truth(info.headers));
    lemma_size_member("max_payload"@, signed(info.max_payload as int));
    lemma_size_member("proto"@, signed(info.proto as int));
}

/// An INFO message whose strings have nothing to escape fits the buffer for headers with its command
/// and its delimiter, however long its strings may be and whatever its numbers are: with all strings
/// empty its body takes no more than 145 bytes, and just as many with the longest numbers.
pub proof fn info_line_fits(info: NatsInfoMsg)
    requires
        is_plain_info(info),
    ensures
        size(info_json(info)) <= 145 + size(info.server_id@) + size(info.server_name@) + size(
            info.version@,
        ) + size(info.go@) + size(info.host@),
        info.port == i32::MIN && info.max_payload == i32::MIN && info.proto == i32::MIN
            && !info.headers ==> size(info_json(info)) == 145 + size(info.server_id@) + size(
            info.server_name@,
        ) + size(info.version@) + size(info.go@) + size(info.host@),
        size(spaced("INFO"@, info_json(info))) + delimiter().len() <= INFO_MAX_STR_LEN,
{
    let members = info_members(info);
    lemma_info_sizes(info);
    lemma_size_signed(info.port as int);
    lemma_size_truth(info.headers);
    lemma_size_signed(info.max_payload as int);
    lemma_size_signed(info.proto as int);
    lemma_size_object(members);
    reveal_with_fuel(sizes, 10);
    reveal_strlit("INFO");
    let command = "INFO"@.push(' ');
    lemma_size_ascii(command);
    lemma_size_add(command, info_json(info));
}

proof fn lemma_contains_add(a: Seq<char>, b: Seq<char>, c: char)
    ensures
        (a + b).contains(c) == (a.contains(c) || b.contains(c)),
{
    if (a + b).contains(c) {
        let i = choose|i: int| 0 <= i < (a + b).len() && (a + b)[i] == c;
        if i < a.len() {
            assert(a[i] == c);
        } else {
            assert(b[i - a.len()] == c);
        }
    }
    if a.contains(c) {
        let i = choose|i: int| 0 <= i < a.len() && a[i] == c;
        assert((a + b)[i] == c);
    }
    if b.contains(c) {
        let i = choose|i: int| 0 <= i < b.len() && b[i] == c;
        assert((a + b)[a.len() + i] == c);
    }
}

proof fn lemma_quoted_has_no_return(text: Seq<char>)
    requires
        is_plain(text),
    ensures
        !quoted(text).contains('\r'),
{
    lemma_contains_add(seq!['"'], text, '\r');
    lemma_contains_add(seq!['"'] + text, seq!['"'], '\r');
}

proof fn lemma_member_has_no_return(key: Seq<char>, value: Seq<char>)
    requires
        is_plain(key),
        !value.contains('\r'),
    ensures
        !member(key, value).contains('\r'),
{
    lemma_quoted_has_no_return(key);
    lemma_contains_add(quoted(key), seq![':'], '\r');
    lemma_contains_add(quoted(key) + seq![':'], value, '\r');
}

proof fn lemma_signed_has_no_return(n: int)
    requires
        i32::MIN <= n <= i32::MAX,
    ensures
        !signed(n).contains('\r'),
{
    lemma_size_signed(n);
    let digits = decimal(if n < 0 {
        (-n) as nat
    } else {
        n as nat
    });
    if digits.contains('\r') {
        let i = choose|i: int| 0 <= i < digits.len() && digits[i] == '\r';
        assert(is_digit(digits[i]));
    }
    lemma_contains_add(seq!['-'], digits, '\r');
}

proof fn lemma_listed_has_no_return(members: Seq<Seq<char>>)
    requires
        forall|i: int| 0 <= i < members.len() ==> !(#[trigger] members[i]).contains('\r'),
    ensures
        !listed(members).contains('\r'),
    decreases members.len(),
{
    if members.len() > 1 {
        let head = members.drop_last();
        assert forall|i: int| 0 <= i < head.len() implies !(#[trigger] head[i]).contains('\r') by {
            assert(head[i] == members[i]);
        }
        lemma_listed_has_no_return(head);
        assert(members.last() == members[members.len() - 1]);
        lemma_contains_add(listed(head), seq![','], '\r');
        lemma_contains_add(listed(head) + seq![','], members.last(), '\r');
    }
}

proof fn lemma_info_has_no_return(info: NatsInfoMsg)
    requires
        is_plain_info(info),
    ensures
        !info_json(info).contains('\r'),
{
    reveal_strlit("server_id");
    reveal_strlit("server_name");
    reveal_strlit("version");
    reveal_strlit("go");
    reveal_strlit("host");
    reveal_strlit("port");
    reveal_strlit("headers");
    reveal_strlit("max_payload");
    reveal_strlit("proto");
    reveal_strlit("true");
    reveal_strlit("false");
    lemma_quoted_has_no_return(info.server_id@);
    lemma_quoted_has_no_return(info.server_name@);
    lemma_quoted_has_no_return(info.version@);
    lemma_quoted_has_no_return(info.go@);
    lemma_quoted_has_no_return(info.host@);
    lemma_signed_has_no_return(info.port as int);
    lemma_signed_has_no_return(info.max_payload as int);
    lemma_signed_has_no_return(info.proto as int);
    lemma_member_has_no_return("server_id"@, quoted(info.server_id@));
    lemma_member_has_no_return("server_name"@, quoted(info.server_name@));
    lemma_member_has_no_return("version"@, quoted(info.version@));
    lemma_member_has_no_return("go"@, quoted(info.go@));
    lemma_member_has_no_return("host"@, quoted(info.host@));
    lemma_member_has_no_return("port"@, signed(info.port as int));
    lemma_member_has_no_return("headers"@, truth(info.headers));
    lemma_member_has_no_return("max_payload"@, signed(info.max_payload as int));
    lemma_member_has_no_return("proto"@, signed(info.proto as int));
    let members = info_members(info);
    lemma_listed_has_no_return(members);
    lemma_contains_add(seq!['{'], listed(members), '\r');
    lemma_contains_add(seq!['{'] + listed(members), seq!['}'], '\r');
}

/// An INFO message whose strings have nothing to escape arrives at a framer in place: there is room
/// for every byte of it, nothing comes to light before the last one, and then its body does.
pub proof fn info_arrives_in_place<const TOPIC: usize, const PAYLOAD: usize>(info: NatsInfoMsg)
    requires
        is_plain_info(info),
    ensures
        ({
            let start = FramerState::start();
            let packet = encode_utf8(spaced("INFO"@, info_json(info))) + delimiter();
            &&& packet.len() <= INFO_MAX_STR_LEN
            &&& read_all::<BoundedString<TOPIC>>(start, singles(packet)) == (
                start,
                pending((packet.len() - 1) as nat).push(Event::Info(info_json(info))),
            )
            &&& can_read_all::<Heapless<TOPIC, PAYLOAD>>(start, singles(packet))
        }),
{
    let json = info_json(info);
    let line = spaced("INFO"@, json);
    info_line_fits(info);
    lemma_info_has_no_return(info);
    reveal_strlit("INFO");
    lemma_contains_add("INFO"@.push(' '), json, '\r');
    line_without_return_is_undelimited(line);
    assert(json.last() == '}');
    plain_lines_are_read_back(json);
    packet_says_what_its_line_says(line);
    header_arrives::<Heapless<TOPIC, PAYLOAD>>(encode_utf8(line));
}

} // verus!
