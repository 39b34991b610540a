//! The daemon's lines as the name-service adapter reads them.

use vstd::prelude::*;
use crate::errors::NssError;
use crate::nss_client::{
    gidlist_meaning, gids_of, group_payload_ok, passwd_payload_ok, reply_meaning,
};
use crate::response::{
    decimals, gidlist_line, group_line, group_payload, passwd_line, passwd_payload,
};
use crate::text::{
    decimal, has_byte, is_space, join, lemma_decimal, lemma_decimal_bytes, lemma_find_byte_is,
    lemma_parse_decimal, lemma_split_join, lit, parse_unsigned, split, splitn, trim_end,
};

verus! {

/// Whether a text does not end in white space.
pub open spec fn ends_clean(s: Seq<u8>) -> bool {
    s.len() == 0 || !is_space(s.last())
}

/// Trimming leaves a text that does not end in white space as it is, and
/// takes a line feed at its end off.
pub proof fn lemma_trim_line(s: Seq<u8>)
    requires
        ends_clean(s),
    ensures
        trim_end(s) == s,
        trim_end(s.push(0x0au8)) == s,
{
    assert(s.push(0x0au8).drop_last() == s);
}

/// The adapter reads a line of the daemon with the code 200 as its
/// payload, if the payload does not end in white space.
pub proof fn lemma_reply_carries_payload(payload: Seq<u8>)
    requires
        ends_clean(payload),
    ensures
        reply_meaning((lit("200 ") + payload).push(0x0au8)) == Ok::<Seq<u8>, NssError>(payload),
{
    reveal_strlit("200 ");
    broadcast use vstd::string::group_string_axioms;

    assert("200 "@.len() == 4 && vstd::string::is_ascii("200 "));
    let head = lit("200 ");
    assert(head =~= seq![0x32u8, 0x30u8, 0x30u8, 0x20u8]);
    let code = seq![0x32u8, 0x30u8, 0x30u8];
    let line = head + payload;
    let trimmed = trim_end(line.push(0x0au8));
    assert(line.push(0x0au8).drop_last() == line);
    if payload.len() > 0 {
        assert(line.last() == payload.last());
        lemma_trim_line(line);
        assert(trimmed == line);
        lemma_find_byte_is(line, 0x20, 3);
        assert(line.take(3) =~= code);
        assert(line.skip(4) =~= payload);
        assert(splitn(line.skip(4), 0x20, 1) == seq![payload]);
        assert(splitn(line, 0x20, 2) =~= seq![code, payload]);
    } else {
        assert(line =~= head);
        assert(head.drop_last() =~= code);
        lemma_trim_line(code);
        assert(is_space(head.last()));
        assert(trim_end(head) == trim_end(head.drop_last()));
        assert(trim_end(line.push(0x0au8)) == trim_end(line));
        assert(trimmed == code);
        lemma_find_byte_is(code, 0x20, 3);
        assert(splitn(code, 0x20, 2) =~= seq![code]);
        assert(payload =~= Seq::<u8>::empty());
    }
    assert(code =~= decimal(200)) by {
        reveal_with_fuel(decimal, 4);
    }
    lemma_parse_decimal(200, 0xffff);
}

/// A joined text ends as its last part does, or in the separator if the
/// last part is empty and not the only one.
pub proof fn lemma_join_ends(parts: Seq<Seq<u8>>, sep: u8)
    requires
        parts.len() >= 1,
        ends_clean(parts.last()),
        !is_space(sep),
    ensures
        ends_clean(join(parts, sep)),
    decreases parts.len(),
{
    if parts.len() > 1 {
        let rest = parts.skip(1);
        assert(rest.last() == parts.last());
        lemma_join_ends(rest, sep);
        let head = parts[0].push(sep);
        let all = head + join(rest, sep);
        if join(rest, sep).len() == 0 {
            assert(all =~= head);
        } else {
            assert(all.last() == join(rest, sep).last());
        }
    }
}

/// What the daemon writes for a user, the adapter reads as that user: the
/// line is accepted, its payload is a user record, and the fields of the
/// record are those of the user. This is stated of a user with a name and
/// without a colon in its texts, whose shell does not end in white space,
/// which the adapter would take off.
pub proof fn law_adapter_reads_user(
    username: Seq<u8>,
    passwd: Seq<u8>,
    uid: u32,
    gid: u32,
    gecos: Seq<u8>,
    dir: Seq<u8>,
    shell: Seq<u8>,
)
    requires
        username.len() > 0,
        !has_byte(username, 0x3a) && !has_byte(passwd, 0x3a) && !has_byte(gecos, 0x3a)
            && !has_byte(dir, 0x3a) && !has_byte(shell, 0x3a),
        ends_clean(shell),
    ensures
        reply_meaning(passwd_line(username, passwd, uid, gid, gecos, dir, shell).push(0x0au8))
            == Ok::<Seq<u8>, NssError>(
            passwd_payload(username, passwd, uid, gid, gecos, dir, shell),
        ),
        passwd_payload_ok(passwd_payload(username, passwd, uid, gid, gecos, dir, shell)),
        split(passwd_payload(username, passwd, uid, gid, gecos, dir, shell), 0x3a) == seq![
            username,
            passwd,
            decimal(uid as nat),
            decimal(gid as nat),
            gecos,
            dir,
            shell,
        ],
        parse_unsigned(decimal(uid as nat), 0xffff_ffff) == Some(uid as nat),
        parse_unsigned(decimal(gid as nat), 0xffff_ffff) == Some(gid as nat),
{
    let parts = seq![
        username,
        passwd,
        decimal(uid as nat),
        decimal(gid as nat),
        gecos,
        dir,
        shell,
    ];
    let payload = join(parts, 0x3a);
    lemma_decimal_bytes(uid as nat, 0x3a);
    lemma_decimal_bytes(gid as nat, 0x3a);
    assert forall|k: int| 0 <= k < parts.len() implies !has_byte(#[trigger] parts[k], 0x3a) by {}
    lemma_split_join(parts, 0x3a);
    lemma_parse_decimal(uid as nat, 0xffff_ffff);
    lemma_parse_decimal(gid as nat, 0xffff_ffff);
    lemma_join_ends(parts, 0x3a);
    lemma_reply_carries_payload(payload);
}

/// What the daemon writes for a group, the adapter reads as that group:
/// the line is accepted, its payload is a group record, and the fields and
/// members of the record are those of the group. This is stated of a group
/// with a name, without a colon in its texts and without a comma in its
/// members, whose last member does not end in white space. A group
/// without members is left out: the adapter reads the empty list of
/// members as one member without a name.
pub proof fn law_adapter_reads_group(name: Seq<u8>, passwd: Seq<u8>, gid: u32, mem: Seq<Seq<u8>>)
    requires
        name.len() > 0,
        !has_byte(name, 0x3a) && !has_byte(passwd, 0x3a),
        mem.len() >= 1,
        forall|i: int|
            0 <= i < mem.len() ==> !has_byte(#[trigger] mem[i], 0x3a) && !has_byte(mem[i], 0x2c),
        ends_clean(mem.last()),
    ensures
        reply_meaning(group_line(name, passwd, gid, mem).push(0x0au8)) == Ok::<Seq<u8>, NssError>(
            group_payload(name, passwd, gid, mem),
        ),
        group_payload_ok(group_payload(name, passwd, gid, mem)),
        split(group_payload(name, passwd, gid, mem), 0x3a) == seq![
            name,
            passwd,
            decimal(gid as nat),
            join(mem, 0x2c),
        ],
        parse_unsigned(decimal(gid as nat), 0xffff_ffff) == Some(gid as nat),
        split(join(mem, 0x2c), 0x2c) == mem,
{
    let members = join(mem, 0x2c);
    let parts = seq![name, passwd, decimal(gid as nat), members];
    let payload = join(parts, 0x3a);
    lemma_decimal_bytes(gid as nat, 0x3a);
    assert(!has_byte(members, 0x3a)) by {
        if has_byte(members, 0x3a) {
            crate::text::lemma_join_bytes(mem, 0x2c, 0x3a);
        }
    }
    assert forall|k: int| 0 <= k < parts.len() implies !has_byte(#[trigger] parts[k], 0x3a) by {}
    lemma_split_join(parts, 0x3a);
    lemma_split_join(mem, 0x2c);
    lemma_parse_decimal(gid as nat, 0xffff_ffff);
    lemma_join_ends(mem, 0x2c);
    lemma_join_ends(parts, 0x3a);
    lemma_reply_carries_payload(payload);
}

/// What the daemon writes for the groups of a user, the adapter reads as
/// those groups. This is stated of a user without a colon in its name and
/// with at least one group: the adapter refuses an empty list.
pub proof fn law_adapter_reads_gidlist(username: Seq<u8>, gids: Seq<u32>)
    requires
        !has_byte(username, 0x3a),
        gids.len() >= 1,
    ensures
        reply_meaning(gidlist_line(username, gids).push(0x0au8)) == Ok::<Seq<u8>, NssError>(
            join(seq![username, join(decimals(gids), 0x2c)], 0x3a),
        ),
        gidlist_meaning(join(seq![username, join(decimals(gids), 0x2c)], 0x3a)) == Some(gids),
{
    let d = decimals(gids);
    let list = join(d, 0x2c);
    let parts = seq![username, list];
    let payload = join(parts, 0x3a);
    assert forall|i: int| 0 <= i < d.len() implies !has_byte(#[trigger] d[i], 0x2c) && !has_byte(
        d[i],
        0x3a,
    ) && ends_clean(d[i]) && parse_unsigned(d[i], 0xffff_ffff) == Some(gids[i] as nat) by {
        lemma_decimal_bytes(gids[i] as nat, 0x2c);
        lemma_decimal_bytes(gids[i] as nat, 0x3a);
        lemma_parse_decimal(gids[i] as nat, 0xffff_ffff);
        lemma_decimal(gids[i] as nat);
    }
    assert(!has_byte(list, 0x3a)) by {
        if has_byte(list, 0x3a) {
            crate::text::lemma_join_bytes(d, 0x2c, 0x3a);
        }
    }
    assert forall|k: int| 0 <= k < parts.len() implies !has_byte(#[trigger] parts[k], 0x3a) by {}
    lemma_split_join(parts, 0x3a);
    lemma_split_join(d, 0x2c);
    assert(split(payload, 0x3a)[1] == list);
    assert(gids_of(list) is Some);
    assert(gids_of(list).unwrap() =~= gids);
    lemma_join_ends(d, 0x2c);
    lemma_join_ends(parts, 0x3a);
    lemma_reply_carries_payload(payload);
}

} // verus!
