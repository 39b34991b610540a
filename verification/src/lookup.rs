//! The way of a lookup by user name: from the line that the daemon reads to
//! the request it makes, and from the record in the server's map to the
//! line that the daemon answers with.

use vstd::prelude::*;
use crate::bind::Context;
use crate::format::passwd_record;
use crate::json::Json;
use crate::percent::{EncodeSet, lemma_encode_plain, percent_encoded};
use crate::request::{
    Cmd, command, forbidden, map_and_key, map_path, parse_spec, uri_of, verb_lower,
};
use crate::response::{passwd_shape, reply_line, small_field, text_field};
use crate::text::{
    decimal, has_byte, join, lemma_join_split, lemma_split_bytes_from, lemma_split_join,
    lemma_splitn_is_split, lit, parse_unsigned, split, splitn, starts_with,
};

verus! {

/// The bytes of the literal texts that a lookup by name is written with.
pub proof fn lemma_lookup_literals()
    ensures
        lit("getpwnam") == seq![0x67u8, 0x65u8, 0x74u8, 0x70u8, 0x77u8, 0x6eu8, 0x61u8, 0x6du8],
        lit("getpwnam ") == lit("getpwnam").push(0x20u8),
        lit("passwd") == seq![0x70u8, 0x61u8, 0x73u8, 0x73u8, 0x77u8, 0x64u8],
        lit("username") == seq![0x75u8, 0x73u8, 0x65u8, 0x72u8, 0x6eu8, 0x61u8, 0x6du8, 0x65u8],
        lit("auth").len() == 4,
{
    reveal_strlit("getpwnam");
    reveal_strlit("getpwnam ");
    reveal_strlit("passwd");
    reveal_strlit("username");
    reveal_strlit("auth");
    broadcast use vstd::string::group_string_axioms;

    assert("getpwnam"@.len() == 8 && vstd::string::is_ascii("getpwnam"));
    assert("getpwnam "@.len() == 9 && vstd::string::is_ascii("getpwnam "));
    assert("passwd"@.len() == 6 && vstd::string::is_ascii("passwd"));
    assert("username"@.len() == 8 && vstd::string::is_ascii("username"));
    assert("auth"@.len() == 4 && vstd::string::is_ascii("auth"));
    assert(lit("getpwnam") =~= seq![
        0x67u8,
        0x65u8,
        0x74u8,
        0x70u8,
        0x77u8,
        0x6eu8,
        0x61u8,
        0x6du8,
    ]);
    assert(lit("getpwnam ") =~= lit("getpwnam").push(0x20u8));
    assert(lit("passwd") =~= seq![0x70u8, 0x61u8, 0x73u8, 0x73u8, 0x77u8, 0x64u8]);
    assert(lit("username") =~= seq![
        0x75u8,
        0x73u8,
        0x65u8,
        0x72u8,
        0x6eu8,
        0x61u8,
        0x6du8,
        0x65u8,
    ]);
    assert(lit("auth").len() == 4);
}

/// The daemon reads the line `getpwnam NAME` as a lookup by name with the
/// name as its one argument, whatever the name, as long as it holds no
/// space.
pub proof fn law_daemon_reads_lookup(name: Seq<u8>)
    requires
        !has_byte(name, 0x20),
    ensures
        parse_spec(lit("getpwnam ") + name) == Ok::<(Cmd, Seq<Seq<u8>>, u32), Seq<u8>>(
            (Cmd::GetPwNam, seq![name], 0u32),
        ),
{
    lemma_lookup_literals();
    let verb = lit("getpwnam");
    let line = lit("getpwnam ") + name;
    let words = seq![verb, name];
    assert(!has_byte(verb, 0x20));
    assert forall|k: int| 0 <= k < words.len() implies !has_byte(#[trigger] words[k], 0x20) by {}
    lemma_split_join(words, 0x20);
    assert(join(words, 0x20) =~= line) by {
        reveal_with_fuel(join, 3);
        assert(words.skip(1) =~= seq![name]);
    }
    lemma_splitn_is_split(line, 0x20, 5);
    assert(splitn(line, 0x20, 5) == words);
    assert(verb_lower(verb) =~= verb);
    assert(words.skip(1) =~= seq![name]);
    assert(verb != lit("auth"));
    assert(command(verb) == Some((Cmd::GetPwNam, 1nat, 1nat)));
}

/// What the daemon asks for a lookup by name. No restriction forbids the
/// lookup. The path names the domain, the map `passwd`, the key
/// `username` with the name, and the uid of the session; domain and name
/// are percent-encoded. A server that is named without a scheme, and is
/// not the local host, is asked over HTTPS under the well-known prefix.
pub proof fn law_lookup_is_asked(ctx: Context, name: Seq<u8>, server: Seq<u8>)
    requires
        !starts_with(server, lit("http://")),
        !starts_with(server, lit("https://")),
        server != lit("localhost"),
        !starts_with(server, lit("localhost:")),
    ensures
        !forbidden(ctx, Cmd::GetPwNam, 0),
        map_path(ctx.config.domain@, Cmd::GetPwNam, name, ctx.uid) == lit("/") + percent_encoded(
            EncodeSet::Default,
            ctx.config.domain@,
        ) + lit("/map/") + lit("passwd") + lit("?") + lit("username") + lit("=") + percent_encoded(
            EncodeSet::Query,
            name,
        ) + lit("&cred_uid=") + decimal(ctx.uid as nat),
        uri_of(server, map_path(ctx.config.domain@, Cmd::GetPwNam, name, ctx.uid)) == lit(
            "https://",
        ) + server + lit("/.well-known/webnis") + map_path(
            ctx.config.domain@,
            Cmd::GetPwNam,
            name,
            ctx.uid,
        ),
{
    lemma_lookup_literals();
    assert(map_and_key(Cmd::GetPwNam) == (lit("passwd"), lit("username")));
    lemma_encode_plain(EncodeSet::Default, lit("passwd"));
    lemma_encode_plain(EncodeSet::Query, lit("username"));
}

/// What the daemon answers when the server has found a user record. The
/// server reads the line of its map into an entry with the seven fields of
/// the line, and sends it as the result; the daemon answers with `200` and
/// the line again. This is stated of a line that is a user record with uid
/// and gid written the plain decimal way.
pub proof fn law_user_record_is_reshaped(line: Seq<u8>, entry: Json, reply: Json)
    requires
        passwd_record(line),
        split(line, 0x3a)[2] == decimal(
            parse_unsigned(split(line, 0x3a)[2], 0xffff_ffff).unwrap(),
        ),
        split(line, 0x3a)[3] == decimal(
            parse_unsigned(split(line, 0x3a)[3], 0xffff_ffff).unwrap(),
        ),
        passwd_shape(entry),
        text_field(entry, lit("username")) == Some(split(line, 0x3a)[0]),
        text_field(entry, lit("passwd")) == Some(split(line, 0x3a)[1]),
        small_field(entry, lit("uid")) matches Some(u) && Some(u as nat) == parse_unsigned(
            split(line, 0x3a)[2],
            0xffff_ffff,
        ),
        small_field(entry, lit("gid")) matches Some(g) && Some(g as nat) == parse_unsigned(
            split(line, 0x3a)[3],
            0xffff_ffff,
        ),
        text_field(entry, lit("gecos")) == Some(split(line, 0x3a)[4]),
        text_field(entry, lit("dir")) == Some(split(line, 0x3a)[5]),
        text_field(entry, lit("shell")) == Some(split(line, 0x3a)[6]),
        reply.members() == Some(1nat),
        reply.field(lit("result")) == Some(entry),
    ensures
        reply_line(reply) == lit("200 ") + line,
{
    let f = split(line, 0x3a);
    let uid = small_field(entry, lit("uid")).unwrap();
    let gid = small_field(entry, lit("gid")).unwrap();
    assert forall|k: int| 0 <= k < 7 implies !has_byte(#[trigger] f[k], 0) by {
        if has_byte(f[k], 0) {
            lemma_split_bytes_from(line, 0x3a, k, 0);
        }
    }
    let parts = seq![f[0], f[1], decimal(uid as nat), decimal(gid as nat), f[4], f[5], f[6]];
    assert(parts =~= f);
    lemma_join_split(line, 0x3a);
}

} // verus!
