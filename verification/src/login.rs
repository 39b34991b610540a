//! The way of a password from the adapter through the daemon to the
//! server's check of the hash.

use vstd::prelude::*;
use vstd::utf8::valid_utf8;
use crate::pam::{auth_line, law_password_round_trip};
use crate::percent::{
    EncodeSet, lemma_ascii_is_utf8, lemma_decode_plain, lemma_encoded_bytes, lemma_encoded_clean,
    percent_decoded, percent_encoded,
};
use crate::request::{auth_body, Cmd, command, parse_spec, verb_lower};
use crate::text::{
    has_byte, has_whitespace, join, lemma_concat_bytes, lemma_find_byte_is, lemma_put_pair,
    lemma_split_join, lemma_splitn_is_split, lit, pair_value, put_pair, split, splitn,
    whitespace_at,
};
use crate::util::{form_of, form_pair, form_table};

verus! {

/// The bytes of the literal texts that a login is written with.
pub proof fn lemma_login_literals()
    ensures
        lit("auth") == seq![0x61u8, 0x75u8, 0x74u8, 0x68u8],
        lit("auth ") == lit("auth").push(0x20u8),
        lit("username") == seq![0x75u8, 0x73u8, 0x65u8, 0x72u8, 0x6eu8, 0x61u8, 0x6du8, 0x65u8],
        lit("password") == seq![0x70u8, 0x61u8, 0x73u8, 0x73u8, 0x77u8, 0x6fu8, 0x72u8, 0x64u8],
        lit("service") == seq![0x73u8, 0x65u8, 0x72u8, 0x76u8, 0x69u8, 0x63u8, 0x65u8],
        lit("username=") == lit("username").push(0x3du8),
        lit("password=") == lit("password").push(0x3du8),
        lit("service=") == lit("service").push(0x3du8),
        lit("&password=") == seq![0x26u8] + lit("password="),
        lit("&service=") == seq![0x26u8] + lit("service="),
        lit("password_raw").len() == 12,
{
    reveal_strlit("auth");
    reveal_strlit("auth ");
    reveal_strlit("username");
    reveal_strlit("password");
    reveal_strlit("service");
    reveal_strlit("username=");
    reveal_strlit("password=");
    reveal_strlit("service=");
    reveal_strlit("&password=");
    reveal_strlit("&service=");
    reveal_strlit("password_raw");
    broadcast use vstd::string::group_string_axioms;
    assert("auth"@.len() == 4 && vstd::string::is_ascii("auth"));
    assert("auth "@.len() == 5 && vstd::string::is_ascii("auth "));
    assert("username"@.len() == 8 && vstd::string::is_ascii("username"));
    assert("password"@.len() == 8 && vstd::string::is_ascii("password"));
    assert("service"@.len() == 7 && vstd::string::is_ascii("service"));
    assert("username="@.len() == 9 && vstd::string::is_ascii("username="));
    assert("password="@.len() == 9 && vstd::string::is_ascii("password="));
    assert("service="@.len() == 8 && vstd::string::is_ascii("service="));
    assert("&password="@.len() == 10 && vstd::string::is_ascii("&password="));
    assert("&service="@.len() == 9 && vstd::string::is_ascii("&service="));
    assert("password_raw"@.len() == 12 && vstd::string::is_ascii("password_raw"));
    assert(lit("auth") =~= seq![0x61u8, 0x75u8, 0x74u8, 0x68u8]);
    assert(lit("auth ") =~= lit("auth").push(0x20u8));
    assert(lit("username") =~= seq![
        0x75u8,
        0x73u8,
        0x65u8,
        0x72u8,
        0x6eu8,
        0x61u8,
        0x6du8,
        0x65u8,
    ]);
    assert(lit("password") =~= seq![
        0x70u8,
        0x61u8,
        0x73u8,
        0x73u8,
        0x77u8,
        0x6fu8,
        0x72u8,
        0x64u8,
    ]);
    assert(lit("service") =~= seq![0x73u8, 0x65u8, 0x72u8, 0x76u8, 0x69u8, 0x63u8, 0x65u8]);
    assert(lit("username=") =~= lit("username").push(0x3du8));
    assert(lit("password=") =~= lit("password").push(0x3du8));
    assert(lit("service=") =~= lit("service").push(0x3du8));
    assert(lit("&password=") =~= seq![0x26u8] + lit("password="));
    assert(lit("&service=") =~= seq![0x26u8] + lit("service="));
    assert(lit("password_raw").len() == 12);
}

/// The request of a login as the daemon reads it: the adapter's line
/// without its line feed.
pub open spec fn login_line(user: Seq<u8>, password: Seq<u8>, service: Seq<u8>) -> Seq<u8> {
    lit("auth ") + user + seq![0x20u8] + percent_encoded(EncodeSet::PathSegment, password) + seq![
        0x20u8,
    ] + service
}

/// One part of a form: a plain name, `=`, and a value.
pub open spec fn form_part(name: Seq<u8>, value: Seq<u8>) -> Seq<u8> {
    name.push(0x3du8) + value
}

/// A part of a form with a plain name is cut at the `=` behind the name.
pub proof fn lemma_form_part(name: Seq<u8>, value: Seq<u8>)
    requires
        !has_byte(name, 0x3d),
    ensures
        splitn(form_part(name, value), 0x3d, 2) == seq![name, value],
{
    let part = form_part(name, value);
    let n = name.len() as int;
    assert forall|i: int| 0 <= i < n implies part[i] != 0x3d by {
        assert(part[i] == name[i]);
    }
    assert(part[n] == 0x3d);
    lemma_find_byte_is(part, 0x3d, n);
    assert(part.take(n) =~= name);
    assert(part.skip(n + 1) =~= value);
    assert(splitn(part.skip(n + 1), 0x3d, 1) == seq![value]);
    assert(splitn(part, 0x3d, 2) =~= seq![name, value]);
}

/// The daemon reads the adapter's line as a login with the user, the
/// encoded password and the service as its arguments.
pub proof fn lemma_daemon_reads_login(user: Seq<u8>, password: Seq<u8>, service: Seq<u8>)
    requires
        !has_whitespace(user),
        !has_whitespace(service),
    ensures
        parse_spec(login_line(user, password, service)) == Ok::<
            (Cmd, Seq<Seq<u8>>, u32),
            Seq<u8>,
        >((Cmd::Auth, seq![user, percent_encoded(EncodeSet::PathSegment, password), service], 0u32)),
{
    lemma_login_literals();
    law_password_round_trip(password);
    let enc = percent_encoded(EncodeSet::PathSegment, password);
    let line = login_line(user, password, service);
    let words = seq![lit("auth"), user, enc, service];
    assert(!has_byte(user, 0x20)) by {
        if has_byte(user, 0x20) {
            let i = choose|i: int| 0 <= i < user.len() && user[i] == 0x20;
            assert(whitespace_at(user, i));
        }
    }
    assert(!has_byte(service, 0x20)) by {
        if has_byte(service, 0x20) {
            let i = choose|i: int| 0 <= i < service.len() && service[i] == 0x20;
            assert(whitespace_at(service, i));
        }
    }
    assert(!has_byte(enc, 0x20)) by {
        if has_byte(enc, 0x20) {
            let i = choose|i: int| 0 <= i < enc.len() && enc[i] == 0x20;
            assert(whitespace_at(enc, i));
        }
    }
    assert(!has_byte(lit("auth"), 0x20));
    assert forall|k: int| 0 <= k < words.len() implies !has_byte(#[trigger] words[k], 0x20) by {}
    lemma_split_join(words, 0x20);
    assert(join(words, 0x20) =~= line) by {
        reveal_with_fuel(join, 5);
        assert(words.skip(1) =~= seq![user, enc, service]);
        assert(words.skip(1).skip(1) =~= seq![enc, service]);
        assert(words.skip(1).skip(1).skip(1) =~= seq![service]);
    }
    lemma_splitn_is_split(line, 0x20, 5);
    assert(splitn(line, 0x20, 5) == words);
    assert(verb_lower(lit("auth")) =~= lit("auth"));
    assert(words.skip(1) =~= seq![user, enc, service]);
    assert(command(lit("auth")) == Some((Cmd::Auth, 2nat, 4nat)));
}

/// The form that the daemon posts for a login is made of three parts.
pub proof fn lemma_login_form_parts(user: Seq<u8>, enc: Seq<u8>, service: Seq<u8>)
    requires
        !has_byte(user, 0x26),
        !has_byte(service, 0x26),
        !has_byte(enc, 0x26),
    ensures
        split(auth_body(seq![user, enc, service]), 0x26) == seq![
            form_part(lit("username"), percent_encoded(EncodeSet::Query, user)),
            form_part(lit("password"), enc),
            form_part(lit("service"), percent_encoded(EncodeSet::Query, service)),
        ],
{
    lemma_login_literals();
    let args = seq![user, enc, service];
    let eu = percent_encoded(EncodeSet::Query, user);
    let es = percent_encoded(EncodeSet::Query, service);
    let a = form_part(lit("username"), eu);
    let b = form_part(lit("password"), enc);
    let c = form_part(lit("service"), es);
    let parts = seq![a, b, c];
    let body = auth_body(args);
    assert(body =~= join(parts, 0x26)) by {
        reveal_with_fuel(join, 4);
        assert(parts.skip(1) =~= seq![b, c]);
        assert(parts.skip(1).skip(1) =~= seq![c]);
    }
    assert(!has_byte(eu, 0x26)) by {
        if has_byte(eu, 0x26) {
            lemma_encoded_bytes(EncodeSet::Query, user, 0x26);
        }
    }
    assert(!has_byte(es, 0x26)) by {
        if has_byte(es, 0x26) {
            lemma_encoded_bytes(EncodeSet::Query, service, 0x26);
        }
    }
    assert(!has_byte(lit("username").push(0x3du8), 0x26));
    assert(!has_byte(lit("password").push(0x3du8), 0x26));
    assert(!has_byte(lit("service").push(0x3du8), 0x26));
    assert(!has_byte(a, 0x26)) by {
        lemma_concat_bytes(lit("username").push(0x3du8), eu, 0x26);
    }
    assert(!has_byte(b, 0x26)) by {
        lemma_concat_bytes(lit("password").push(0x3du8), enc, 0x26);
    }
    assert(!has_byte(c, 0x26)) by {
        lemma_concat_bytes(lit("service").push(0x3du8), es, 0x26);
    }
    assert forall|k: int| 0 <= k < parts.len() implies !has_byte(#[trigger] parts[k], 0x26) by {}
    lemma_split_join(parts, 0x26);
}

/// In a form of three parts named `username`, `password` and `service`,
/// the server finds the value of the second under `password`, provided
/// that value is UTF-8 text.
pub proof fn lemma_server_finds_password(eu: Seq<u8>, enc: Seq<u8>, es: Seq<u8>)
    requires
        valid_utf8(enc),
    ensures
        pair_value(
            form_table(
                seq![
                    form_part(lit("username"), eu),
                    form_part(lit("password"), enc),
                    form_part(lit("service"), es),
                ],
                3,
            ),
            lit("password"),
        ) == Some(enc),
{
    lemma_login_literals();
    let a = form_part(lit("username"), eu);
    let b = form_part(lit("password"), enc);
    let c = form_part(lit("service"), es);
    let parts = seq![a, b, c];
    assert(!has_byte(lit("username"), 0x3d) && !has_byte(lit("username"), 0x25));
    assert(!has_byte(lit("password"), 0x3d) && !has_byte(lit("password"), 0x25));
    assert(!has_byte(lit("service"), 0x3d) && !has_byte(lit("service"), 0x25));
    lemma_form_part(lit("username"), eu);
    lemma_form_part(lit("password"), enc);
    lemma_form_part(lit("service"), es);
    lemma_decode_plain(lit("username"));
    lemma_decode_plain(lit("password"));
    lemma_decode_plain(lit("service"));
    lemma_ascii_is_utf8(lit("password"));
    assert(form_pair(b) == Some((lit("password"), enc)));
    assert(lit("username") != lit("password")) by {
        assert(lit("username")[0] != lit("password")[0]);
    }
    assert(lit("service") != lit("password"));
    let t0 = form_table(parts, 0);
    let t1 = form_table(parts, 1);
    let t2 = form_table(parts, 2);
    let t3 = form_table(parts, 3);
    assert(t0 =~= Seq::<(Seq<u8>, Seq<u8>)>::empty());
    assert(pair_value(t1, lit("password")) is None) by {
        match form_pair(a) {
            Some((k, v)) => {
                assert(k == lit("username"));
                lemma_put_pair(t0, k, v, lit("password"));
            },
            None => {},
        }
    }
    assert(t2 == put_pair(t1, lit("password"), enc));
    lemma_put_pair(t1, lit("password"), enc, lit("password"));
    assert(pair_value(t3, lit("password")) == Some(enc)) by {
        match form_pair(c) {
            Some((k, v)) => {
                assert(k == lit("service"));
                lemma_put_pair(t2, k, v, lit("password"));
            },
            None => {},
        }
    }
}

/// The password of a login reaches the server's check of the hash as the
/// user typed it. The adapter's line is read by the daemon as a login with
/// the user, the encoded password and the service as its arguments; in the
/// form that the daemon posts, the server finds the encoded password under
/// `password`; and what the server decodes from it before it computes the
/// hash is the password. This is stated of users and services without
/// white space and `&`, and of passwords without `&`, which would end the
/// password's part of the form.
pub proof fn law_login_carries_password(user: Seq<u8>, password: Seq<u8>, service: Seq<u8>)
    requires
        !has_whitespace(user),
        !has_whitespace(service),
        !has_byte(user, 0x26),
        !has_byte(service, 0x26),
        !has_byte(password, 0x26),
    ensures
        auth_line(user, password, service, None) == login_line(user, password, service).push(
            0x0au8,
        ),
        parse_spec(login_line(user, password, service)) == Ok::<
            (Cmd, Seq<Seq<u8>>, u32),
            Seq<u8>,
        >((Cmd::Auth, seq![user, percent_encoded(EncodeSet::PathSegment, password), service], 0u32)),
        pair_value(
            form_of(auth_body(seq![user, percent_encoded(EncodeSet::PathSegment, password), service])),
            lit("password"),
        ) == Some(percent_encoded(EncodeSet::PathSegment, password)),
        percent_decoded(percent_encoded(EncodeSet::PathSegment, password)) == password,
{
    law_password_round_trip(password);
    let enc = percent_encoded(EncodeSet::PathSegment, password);
    assert(auth_line(user, password, service, None) =~= login_line(user, password, service).push(
        0x0au8,
    ));
    lemma_daemon_reads_login(user, password, service);
    assert(!has_byte(enc, 0x26)) by {
        if has_byte(enc, 0x26) {
            lemma_encoded_bytes(EncodeSet::PathSegment, password, 0x26);
        }
    }
    lemma_login_form_parts(user, enc, service);
    assert forall|i: int| 0 <= i < enc.len() implies enc[i] < 0x80 by {
        lemma_encoded_clean(EncodeSet::PathSegment, password, i);
    }
    lemma_ascii_is_utf8(enc);
    lemma_server_finds_password(
        percent_encoded(EncodeSet::Query, user),
        enc,
        percent_encoded(EncodeSet::Query, service),
    );
}

} // verus!
