//! The map server's configuration: domains, maps, authentication descriptors,
//! and the checks that a configuration has to pass before the server starts.

use vstd::prelude::*;
use crate::db::MapType;
use crate::format::Format;
use crate::text::{
    bytes_eq, clone_bytes, clone_list, clone_opt, clone_opt_pairs, clone_pairs, find_in_list,
    find_key, first_some, keys_of, lemma_first_some_stable, lemma_position, lit, opt_pairs_view,
    opt_view, or_else, pairs_view, position, push_all, views,
};

verus! {

/// A namespace: which maps it offers and how the daemon has to identify itself.
#[derive(Debug, PartialEq, Eq)]
pub struct Domain {
    /// Domain name.
    pub name: Vec<u8>,
    /// Database directory.
    pub db_dir: Vec<u8>,
    /// Names of the maps that may be looked up in this domain.
    pub maps: Vec<Vec<u8>>,
    /// Name of the authentication descriptor, if logins are offered.
    pub auth: Option<Vec<u8>>,
    /// Schema expected at the start of the `Authorization` header.
    pub http_authschema: Option<Vec<u8>>,
    /// Token expected after the schema.
    pub http_authtoken: Option<Vec<u8>>,
    /// Encoding of the token on the wire; `base64` is the only one known.
    pub http_authencoding: Option<Vec<u8>>,
}

/// How logins are checked: against a map, or by a script function.
#[derive(Debug, PartialEq, Eq)]
pub struct Auth {
    pub map: Option<Vec<u8>>,
    pub key: Option<Vec<u8>>,
    pub lua_function: Option<Vec<u8>>,
}

/// One definition of a map. Several definitions may share a name and differ in
/// the keys they answer on.
#[derive(Debug, PartialEq, Eq)]
pub struct MapDef {
    pub name: Vec<u8>,
    pub key: Option<Vec<u8>>,
    pub keys: Vec<Vec<u8>>,
    /// Pairs of an incoming key name and the key name it stands for.
    pub key_alias: Vec<(Vec<u8>, Vec<u8>)>,
    pub lua_function: Option<Vec<u8>>,
    pub map_type: MapType,
    pub map_format: Option<Format>,
    pub map_file: Option<Vec<u8>>,
    /// Pairs of an output field name and its template.
    pub map_output: Option<Vec<(Vec<u8>, Vec<u8>)>>,
    /// Definitions nested under this one, each with its key name.
    pub submaps: Vec<(Vec<u8>, MapDef)>,
}

/// Where the script lives.
#[derive(Debug, PartialEq, Eq)]
pub struct LuaConfig {
    pub script: Vec<u8>,
}

/// What the configuration holds under one map name: one definition, or
/// several by key name.
#[derive(Debug, PartialEq, Eq)]
pub enum MapOrMaps {
    Maps(Vec<(Vec<u8>, MapDef)>),
    Single(MapDef),
}

/// Settings of the listener.
#[derive(Debug, PartialEq, Eq)]
pub struct Server {
    pub tls: bool,
    pub crt_file: Option<Vec<u8>>,
    pub key_file: Option<Vec<u8>>,
    pub cert_password: Vec<u8>,
    pub securenets: Vec<Vec<u8>>,
    pub http2_only: bool,
    pub concurrency: Option<usize>,
    pub datalog: Option<Vec<u8>>,
}

/// The whole configuration. `map` is what the file holds; `map_` is the list
/// of checked definitions by map name that lookups use.
#[derive(Debug, PartialEq, Eq)]
pub struct Config {
    pub server: Server,
    pub domain: Vec<Domain>,
    pub map: Vec<(Vec<u8>, MapOrMaps)>,
    pub map_: Vec<(Vec<u8>, Vec<MapDef>)>,
    pub auth: Vec<(Vec<u8>, Auth)>,
    pub lua: Option<LuaConfig>,
    pub include_maps: Option<Vec<u8>>,
}

/// What a map definition says, nested definitions aside.
pub struct MapModel {
    pub name: Seq<u8>,
    pub key: Option<Seq<u8>>,
    pub keys: Seq<Seq<u8>>,
    pub key_alias: Seq<(Seq<u8>, Seq<u8>)>,
    pub lua_function: Option<Seq<u8>>,
    pub map_type: MapType,
    pub map_format: Option<Format>,
    pub map_file: Option<Seq<u8>>,
    pub map_output: Option<Seq<(Seq<u8>, Seq<u8>)>>,
}

impl MapDef {
    /// The definition with its texts as byte sequences.
    pub open spec fn model(self) -> MapModel {
        MapModel {
            name: self.name@,
            key: opt_view(self.key),
            keys: views(self.keys@),
            key_alias: pairs_view(self.key_alias@),
            lua_function: opt_view(self.lua_function),
            map_type: self.map_type,
            map_format: self.map_format,
            map_file: opt_view(self.map_file),
            map_output: opt_pairs_view(self.map_output),
        }
    }
}

/// The models of a list of definitions.
pub open spec fn models(l: Seq<MapDef>) -> Seq<MapModel> {
    l.map_values(|m: MapDef| m.model())
}

/// A nested definition completed from its base: the key defaults to the name
/// it is nested under; function, type, format, file and output default to
/// those of the base. The result has no name yet.
pub open spec fn inherit(key: Seq<u8>, map: MapModel, base: MapModel) -> MapModel {
    MapModel {
        name: Seq::empty(),
        key: or_else(map.key, Some(key)),
        keys: map.keys,
        key_alias: map.key_alias,
        lua_function: or_else(map.lua_function, base.lua_function),
        map_type: if map.map_type != MapType::Unset {
            map.map_type
        } else {
            base.map_type
        },
        map_format: or_else(map.map_format, base.map_format),
        map_file: or_else(map.map_file, base.map_file),
        map_output: or_else(map.map_output, base.map_output),
    }
}

/// A definition given by key name: the key defaults to that name.
pub open spec fn keyed(key: Seq<u8>, map: MapModel) -> MapModel {
    MapModel { key: or_else(map.key, Some(key)), ..map }
}

/// The definitions that stand under one map name, before they are named.
pub open spec fn expand(v: MapOrMaps) -> Seq<MapModel> {
    match v {
        MapOrMaps::Single(m) => if m.submaps@.len() > 0 {
            Seq::new(
                m.submaps@.len(),
                |i: int| inherit(m.submaps@[i].0@, m.submaps@[i].1.model(), m.model()),
            )
        } else {
            seq![m.model()]
        },
        MapOrMaps::Maps(l) => Seq::new(l@.len(), |i: int| keyed(l@[i].0@, l@[i].1.model())),
    }
}

/// The definitions under one map name, each carrying that name.
pub open spec fn expand_named(name: Seq<u8>, v: MapOrMaps) -> Seq<MapModel> {
    expand(v).map_values(|m: MapModel| MapModel { name: name, ..m })
}

/// The ways in which a configuration can be refused.
#[derive(PartialEq, Eq, Structural, Clone, Copy, Debug)]
pub enum ConfigErrorKind {
    /// A definition with nested definitions has a key of its own.
    BasemapHasKey,
    MapTypeNotSet,
    /// A format is given for a map that is not a keyed hash file.
    FormatNeedsGdbm,
    LuaFunctionNotSet,
    /// A script function is given for a map that is not scripted.
    LuaFunctionSet,
    NoKey,
    MapFileNotSet,
    /// An output mapping is given for a format that has fixed fields.
    OutputWithFormat,
    AuthNotDefined,
    AuthKeyNotSet,
    AuthMapNotSet,
    TlsNoCertFiles,
    TlsIncomplete,
}

/// A refusal: its kind, the map, domain or descriptor it is about, and a
/// second name or value where the message has one.
#[derive(Debug, PartialEq, Eq)]
pub struct ConfigError {
    pub kind: ConfigErrorKind,
    pub subject: Vec<u8>,
    pub detail: Vec<u8>,
}

impl ConfigError {
    /// The refusal with its texts as byte sequences.
    pub open spec fn model(self) -> (ConfigErrorKind, Seq<u8>, Seq<u8>) {
        (self.kind, self.subject@, self.detail@)
    }
}

/// Whether output templates cannot be used with a format.
pub open spec fn fixed_fields(f: Option<Format>) -> bool {
    f == Some(Format::Json) || f == Some(Format::Passwd) || f == Some(Format::Group) || f == Some(
        Format::Adjunct,
    )
}

/// How an optional format is printed in a diagnostic.
pub open spec fn format_debug(f: Option<Format>) -> Seq<u8> {
    match f {
        Some(x) => lit("Some(") + x.debug_name() + lit(")"),
        None => lit("None"),
    }
}

/// The first check that a named definition fails, if any: the type must be
/// set; only keyed hash files take a format; a scripted map needs its
/// function and nothing else; any other map must not name a function, needs a
/// key and a file, and takes output templates only with a free-form format.
pub open spec fn map_problem(m: MapModel) -> Option<(ConfigErrorKind, Seq<u8>, Seq<u8>)> {
    if m.map_type == MapType::Unset {
        Some((ConfigErrorKind::MapTypeNotSet, m.name, Seq::empty()))
    } else if m.map_type != MapType::Gdbm && m.map_format is Some {
        Some((ConfigErrorKind::FormatNeedsGdbm, m.name, m.map_type.debug_name()))
    } else if m.map_type == MapType::Lua {
        if m.lua_function is None {
            Some((ConfigErrorKind::LuaFunctionNotSet, m.name, Seq::empty()))
        } else {
            None
        }
    } else if m.lua_function is Some {
        Some((ConfigErrorKind::LuaFunctionSet, m.name, Seq::empty()))
    } else if m.key is None && m.keys.len() == 0 {
        Some((ConfigErrorKind::NoKey, m.name, Seq::empty()))
    } else if m.map_file is None {
        Some((ConfigErrorKind::MapFileNotSet, m.name, Seq::empty()))
    } else if m.map_output is Some && fixed_fields(m.map_format) {
        Some((ConfigErrorKind::OutputWithFormat, m.name, format_debug(m.map_format)))
    } else {
        None
    }
}

/// Whether a definition with nested definitions has keys of its own.
pub open spec fn basemap_has_key(v: MapOrMaps) -> bool {
    v matches MapOrMaps::Single(m) && m.submaps@.len() > 0 && (m.key is Some || m.keys@.len() > 0
        || m.key_alias@.len() > 0)
}

/// The first problem under one map name.
pub open spec fn entry_problem(name: Seq<u8>, v: MapOrMaps) -> Option<
    (ConfigErrorKind, Seq<u8>, Seq<u8>),
> {
    if basemap_has_key(v) {
        Some((ConfigErrorKind::BasemapHasKey, name, Seq::empty()))
    } else {
        first_some(
            expand_named(name, v).map_values(|m: MapModel| map_problem(m)),
            expand_named(name, v).len() as int,
        )
    }
}

/// What is wrong with a domain, if anything: its descriptor must exist, and a
/// descriptor without a script function needs both a key and a map.
pub open spec fn domain_problem(d: Domain, auth: Seq<(Vec<u8>, Auth)>) -> Option<
    (ConfigErrorKind, Seq<u8>, Seq<u8>),
> {
    match d.auth {
        None => None,
        Some(a) => {
            let i = position(keys_of(auth), a@);
            if !(0 <= i < auth.len()) {
                Some((ConfigErrorKind::AuthNotDefined, d.name@, a@))
            } else if auth[i].1.lua_function is Some {
                None
            } else if auth[i].1.key is None {
                Some((ConfigErrorKind::AuthKeyNotSet, a@, Seq::empty()))
            } else if auth[i].1.map is None {
                Some((ConfigErrorKind::AuthMapNotSet, a@, Seq::empty()))
            } else {
                None
            }
        },
    }
}

/// With TLS on, the certificate and the key must both be named.
pub open spec fn tls_problem(s: Server) -> Option<(ConfigErrorKind, Seq<u8>, Seq<u8>)> {
    if !s.tls {
        None
    } else if s.key_file is None && s.crt_file is None {
        Some((ConfigErrorKind::TlsNoCertFiles, Seq::empty(), Seq::empty()))
    } else if (s.key_file is Some) != (s.crt_file is Some) {
        Some((ConfigErrorKind::TlsIncomplete, Seq::empty(), Seq::empty()))
    } else {
        None
    }
}

/// The problem under each map name, in order.
pub open spec fn entry_problems(map: Seq<(Vec<u8>, MapOrMaps)>) -> Seq<
    Option<(ConfigErrorKind, Seq<u8>, Seq<u8>)>,
> {
    map.map_values(|e: (Vec<u8>, MapOrMaps)| entry_problem(e.0@, e.1))
}

/// The problem of each domain, in order.
pub open spec fn domain_problems(d: Seq<Domain>, auth: Seq<(Vec<u8>, Auth)>) -> Seq<
    Option<(ConfigErrorKind, Seq<u8>, Seq<u8>)>,
> {
    d.map_values(|x: Domain| domain_problem(x, auth))
}

/// The first problem of a configuration: maps in order, then domains in
/// order, then the TLS settings.
pub open spec fn config_problem(c: Config) -> Option<(ConfigErrorKind, Seq<u8>, Seq<u8>)> {
    or_else(
        first_some(entry_problems(c.map@), c.map@.len() as int),
        or_else(
            first_some(domain_problems(c.domain@, c.auth@), c.domain@.len() as int),
            tls_problem(c.server),
        ),
    )
}

/// The checked definitions by map name that a configuration gives rise to.
pub open spec fn assembled(map: Seq<(Vec<u8>, MapOrMaps)>) -> Seq<(Seq<u8>, Seq<MapModel>)> {
    Seq::new(map.len(), |i: int| (map[i].0@, expand_named(map[i].0@, map[i].1)))
}

/// What `map_` holds, as models.
pub open spec fn table_model(t: Seq<(Vec<u8>, Vec<MapDef>)>) -> Seq<(Seq<u8>, Seq<MapModel>)> {
    t.map_values(|p: (Vec<u8>, Vec<MapDef>)| (p.0@, models(p.1@)))
}

fn problem(kind: ConfigErrorKind, subject: &[u8], detail: &[u8]) -> (r: ConfigError)
    ensures
        r.model() == (kind, subject@, detail@),
{
    ConfigError { kind, subject: clone_bytes(subject), detail: clone_bytes(detail) }
}

/// Completes a nested definition from its base.
pub fn map_inherit(key: &[u8], map: &MapDef, base: &MapDef) -> (r: MapDef)
    ensures
        r.model() == inherit(key@, map.model(), base.model()),
        r.submaps@.len() == 0,
{
    MapDef {
        name: Vec::new(),
        key: match &map.key {
            Some(k) => Some(clone_bytes(k.as_slice())),
            None => Some(clone_bytes(key)),
        },
        keys: clone_list(&map.keys),
        key_alias: clone_pairs(&map.key_alias),
        lua_function: match &map.lua_function {
            Some(f) => Some(clone_bytes(f.as_slice())),
            None => clone_opt(&base.lua_function),
        },
        map_type: if map.map_type != MapType::Unset {
            map.map_type
        } else {
            base.map_type
        },
        map_format: match map.map_format {
            Some(f) => Some(f),
            None => base.map_format,
        },
        map_file: match &map.map_file {
            Some(f) => Some(clone_bytes(f.as_slice())),
            None => clone_opt(&base.map_file),
        },
        map_output: match &map.map_output {
            Some(o) => Some(clone_pairs(o)),
            None => clone_opt_pairs(&base.map_output),
        },
        submaps: Vec::new(),
    }
}

/// A copy of a definition under a name, without its nested definitions; a
/// missing key is filled in where a default is given.
fn named_copy(name: &[u8], default_key: Option<&[u8]>, m: &MapDef) -> (r: MapDef)
    ensures
        r.model() == (MapModel {
            name: name@,
            key: match default_key {
                Some(k) => or_else(m.model().key, Some(k@)),
                None => m.model().key,
            },
            ..m.model()
        }),
        r.submaps@.len() == 0,
{
    MapDef {
        name: clone_bytes(name),
        key: match &m.key {
            Some(k) => Some(clone_bytes(k.as_slice())),
            None => match default_key {
                Some(k) => Some(clone_bytes(k)),
                None => None,
            },
        },
        keys: clone_list(&m.keys),
        key_alias: clone_pairs(&m.key_alias),
        lua_function: clone_opt(&m.lua_function),
        map_type: m.map_type,
        map_format: m.map_format,
        map_file: clone_opt(&m.map_file),
        map_output: clone_opt_pairs(&m.map_output),
        submaps: Vec::new(),
    }
}

/// Runs the checks on one named definition.
pub fn check_map(m: &MapDef) -> (r: Option<ConfigError>)
    ensures
        match map_problem(m.model()) {
            Some(p) => r matches Some(e) && e.model() == p,
            None => r is None,
        },
{
    let none: Vec<u8> = Vec::new();
    if m.map_type == MapType::Unset {
        return Some(problem(ConfigErrorKind::MapTypeNotSet, m.name.as_slice(), none.as_slice()));
    }
    if m.map_type != MapType::Gdbm && m.map_format.is_some() {
        return Some(
            problem(ConfigErrorKind::FormatNeedsGdbm, m.name.as_slice(), m.map_type.debug_bytes()),
        );
    }
    if m.map_type == MapType::Lua {
        if m.lua_function.is_none() {
            return Some(
                problem(ConfigErrorKind::LuaFunctionNotSet, m.name.as_slice(), none.as_slice()),
            );
        }
        return None;
    }
    if m.lua_function.is_some() {
        return Some(problem(ConfigErrorKind::LuaFunctionSet, m.name.as_slice(), none.as_slice()));
    }
    if m.key.is_none() && m.keys.len() == 0 {
        return Some(problem(ConfigErrorKind::NoKey, m.name.as_slice(), none.as_slice()));
    }
    if m.map_file.is_none() {
        return Some(problem(ConfigErrorKind::MapFileNotSet, m.name.as_slice(), none.as_slice()));
    }
    if m.map_output.is_some() {
        match m.map_format {
            Some(f) => {
                if f == Format::Json || f == Format::Passwd || f == Format::Group || f
                    == Format::Adjunct {
                    let mut d: Vec<u8> = Vec::new();
                    push_all(&mut d, "Some(".as_bytes());
                    push_all(&mut d, f.debug_bytes());
                    push_all(&mut d, ")".as_bytes());
                    return Some(
                        problem(
                            ConfigErrorKind::OutputWithFormat,
                            m.name.as_slice(),
                            d.as_slice(),
                        ),
                    );
                }
            },
            None => {},
        }
    }
    None
}


/// The checked, named definitions under one map name, or the first problem
/// found among them.
pub fn expand_entry(name: &[u8], v: &MapOrMaps) -> (r: Result<Vec<MapDef>, ConfigError>)
    ensures
        match entry_problem(name@, *v) {
            Some(p) => r matches Err(e) && e.model() == p,
            None => r matches Ok(l) && models(l@) == expand_named(name@, *v),
        },
{
    let none: Vec<u8> = Vec::new();
    let ghost all = expand_named(name@, *v);
    let ghost probs = all.map_values(|m: MapModel| map_problem(m));
    let mut mm: Vec<MapDef> = Vec::new();
    match v {
        MapOrMaps::Single(m) => {
            if m.submaps.len() > 0 {
                if m.key.is_some() || m.keys.len() > 0 || m.key_alias.len() > 0 {
                    return Err(problem(ConfigErrorKind::BasemapHasKey, name, none.as_slice()));
                }
                let mut i: usize = 0;
                while i < m.submaps.len()
                    invariant
                        i <= m.submaps@.len(),
                        *v == MapOrMaps::Single(*m),
                        m.submaps@.len() > 0,
                        !basemap_has_key(*v),
                        all == expand_named(name@, *v),
                        probs == all.map_values(|m: MapModel| map_problem(m)),
                        models(mm@) == all.take(i as int),
                        first_some(probs, i as int) is None,
                    decreases m.submaps@.len() - i,
                {
                    let mut c = map_inherit(m.submaps[i].0.as_slice(), &m.submaps[i].1, m);
                    c.name = clone_bytes(name);
                    assert(c.model() == all[i as int]);
                    match check_map(&c) {
                        Some(e) => {
                            proof {
                                lemma_first_some_stable(probs, i + 1, all.len() as int);
                            }
                            return Err(e);
                        },
                        None => {},
                    }
                    proof {
                        assert(models(mm@.push(c)) == models(mm@).push(c.model()));
                        assert(all.take(i + 1) == all.take(i as int).push(all[i as int]));
                    }
                    mm.push(c);
                    i += 1;
                }
                proof {
                    assert(all.take(i as int) == all);
                }
            } else {
                let c = named_copy(name, None, m);
                assert(all.len() == 1);
                assert(c.model() == all[0]);
                assert(first_some(probs, 0) is None);
                match check_map(&c) {
                    Some(e) => {
                        return Err(e);
                    },
                    None => {},
                }
                mm.push(c);
                assert(models(mm@) == all);
            }
        },
        MapOrMaps::Maps(l) => {
            let mut i: usize = 0;
            while i < l.len()
                invariant
                    i <= l@.len(),
                    *v == MapOrMaps::Maps(*l),
                    all == expand_named(name@, *v),
                    probs == all.map_values(|m: MapModel| map_problem(m)),
                    models(mm@) == all.take(i as int),
                    first_some(probs, i as int) is None,
                decreases l@.len() - i,
            {
                let c = named_copy(name, Some(l[i].0.as_slice()), &l[i].1);
                assert(c.model() == all[i as int]);
                match check_map(&c) {
                    Some(e) => {
                        proof {
                            lemma_first_some_stable(probs, i + 1, all.len() as int);
                        }
                        return Err(e);
                    },
                    None => {},
                }
                proof {
                    assert(models(mm@.push(c)) == models(mm@).push(c.model()));
                    assert(all.take(i + 1) == all.take(i as int).push(all[i as int]));
                }
                mm.push(c);
                i += 1;
            }
            proof {
                assert(all.take(i as int) == all);
            }
        },
    }
    Ok(mm)
}

/// Checks one domain against the authentication descriptors.
pub fn check_domain(d: &Domain, auth: &Vec<(Vec<u8>, Auth)>) -> (r: Option<ConfigError>)
    ensures
        match domain_problem(*d, auth@) {
            Some(p) => r matches Some(e) && e.model() == p,
            None => r is None,
        },
{
    let none: Vec<u8> = Vec::new();
    match &d.auth {
        None => None,
        Some(a) => {
            let i = find_key(auth, a.as_slice());
            if i >= auth.len() {
                Some(problem(ConfigErrorKind::AuthNotDefined, d.name.as_slice(), a.as_slice()))
            } else if auth[i].1.lua_function.is_some() {
                None
            } else if auth[i].1.key.is_none() {
                Some(problem(ConfigErrorKind::AuthKeyNotSet, a.as_slice(), none.as_slice()))
            } else if auth[i].1.map.is_none() {
                Some(problem(ConfigErrorKind::AuthMapNotSet, a.as_slice(), none.as_slice()))
            } else {
                None
            }
        },
    }
}

/// Checks the TLS settings.
pub fn check_tls(s: &Server) -> (r: Option<ConfigError>)
    ensures
        match tls_problem(*s) {
            Some(p) => r matches Some(e) && e.model() == p,
            None => r is None,
        },
{
    let none: Vec<u8> = Vec::new();
    if !s.tls {
        None
    } else if s.key_file.is_none() && s.crt_file.is_none() {
        Some(problem(ConfigErrorKind::TlsNoCertFiles, none.as_slice(), none.as_slice()))
    } else if s.key_file.is_some() != s.crt_file.is_some() {
        Some(problem(ConfigErrorKind::TlsIncomplete, none.as_slice(), none.as_slice()))
    } else {
        None
    }
}

/// Turns what a configuration file holds into a configuration the server can
/// run on: builds the list of checked definitions for each map name, then
/// checks the domains and the TLS settings. The first problem found, maps
/// first and in order, refuses the configuration.
pub fn assemble(config: Config) -> (r: Result<Config, ConfigError>)
    ensures
        match config_problem(config) {
            Some(p) => r matches Err(e) && e.model() == p,
            None => r matches Ok(c) && table_model(c.map_@) == assembled(config.map@) && c.server
                == config.server && c.domain == config.domain && c.map == config.map && c.auth
                == config.auth && c.lua == config.lua && c.include_maps == config.include_maps,
        },
{
    let ghost eprobs = entry_problems(config.map@);
    let ghost dprobs = domain_problems(config.domain@, config.auth@);
    let ghost target = assembled(config.map@);
    let mut table: Vec<(Vec<u8>, Vec<MapDef>)> = Vec::new();
    let mut i: usize = 0;
    while i < config.map.len()
        invariant
            i <= config.map@.len(),
            eprobs == entry_problems(config.map@),
            target == assembled(config.map@),
            table_model(table@) == target.take(i as int),
            first_some(eprobs, i as int) is None,
        decreases config.map@.len() - i,
    {
        let name = clone_bytes(config.map[i].0.as_slice());
        match expand_entry(name.as_slice(), &config.map[i].1) {
            Err(e) => {
                proof {
                    lemma_first_some_stable(eprobs, i + 1, config.map@.len() as int);
                }
                return Err(e);
            },
            Ok(mm) => {
                proof {
                    let entry = (name, mm);
                    assert(table_model(table@.push(entry)) == table_model(table@).push(
                        (name@, models(mm@)),
                    ));
                    assert(target.take(i + 1) == target.take(i as int).push(target[i as int]));
                }
                table.push((name, mm));
            },
        }
        i += 1;
    }
    proof {
        assert(target.take(i as int) == target);
    }
    let mut j: usize = 0;
    while j < config.domain.len()
        invariant
            j <= config.domain@.len(),
            dprobs == domain_problems(config.domain@, config.auth@),
            first_some(dprobs, j as int) is None,
            first_some(entry_problems(config.map@), config.map@.len() as int) is None,
        decreases config.domain@.len() - j,
    {
        match check_domain(&config.domain[j], &config.auth) {
            Some(e) => {
                proof {
                    lemma_first_some_stable(dprobs, j + 1, config.domain@.len() as int);
                }
                return Err(e);
            },
            None => {},
        }
        j += 1;
    }
    match check_tls(&config.server) {
        Some(e) => {
            return Err(e);
        },
        None => {},
    }
    Ok(
        Config {
            server: config.server,
            domain: config.domain,
            map: config.map,
            map_: table,
            auth: config.auth,
            lua: config.lua,
            include_maps: config.include_maps,
        },
    )
}


/// The text of a refusal.
pub open spec fn message_text(kind: ConfigErrorKind, subject: Seq<u8>, detail: Seq<u8>) -> Seq<u8> {
    match kind {
        ConfigErrorKind::BasemapHasKey => lit("map ") + subject + lit(
            ": basemap cannot have a key",
        ),
        ConfigErrorKind::MapTypeNotSet => lit("map ") + subject + lit(": map_type not set"),
        ConfigErrorKind::FormatNeedsGdbm => lit("map ") + subject + lit(
            ": cannot use format with map type ",
        ) + detail,
        ConfigErrorKind::LuaFunctionNotSet => lit("map ") + subject + lit(
            ": lua_function not set",
        ),
        ConfigErrorKind::LuaFunctionSet => lit("map ") + subject + lit(
            ": lua_function set, map_type must be \"lua\"",
        ),
        ConfigErrorKind::NoKey => lit("map ") + subject + lit(": no key"),
        ConfigErrorKind::MapFileNotSet => lit("map ") + subject + lit(": map file not set"),
        ConfigErrorKind::OutputWithFormat => lit("map ") + subject + lit(
            ": cannot use output with format ",
        ) + detail,
        ConfigErrorKind::AuthNotDefined => lit("config: domain ") + subject + lit(": auth ")
            + detail + lit(" not defined"),
        ConfigErrorKind::AuthKeyNotSet => lit("config: auth ") + subject + lit(
            ": 'key' not set",
        ),
        ConfigErrorKind::AuthMapNotSet => lit("config: auth ") + subject + lit(
            ": 'map' not set",
        ),
        ConfigErrorKind::TlsNoCertFiles => lit("config: tls enabled but no cert files configured"),
        ConfigErrorKind::TlsIncomplete => lit("config: both the key_file and crt_file must be set"),
    }
}

fn three(a: &[u8], b: &[u8], c: &[u8]) -> (r: Vec<u8>)
    ensures
        r@ == a@ + b@ + c@,
{
    let mut r: Vec<u8> = Vec::new();
    push_all(&mut r, a);
    push_all(&mut r, b);
    push_all(&mut r, c);
    assert(r@ =~= a@ + b@ + c@);
    r
}

impl ConfigError {
    /// The message that tells an operator what to mend.
    pub fn message(&self) -> (r: Vec<u8>)
        ensures
            r@ == message_text(self.kind, self.subject@, self.detail@),
    {
        let s = self.subject.as_slice();
        let d = self.detail.as_slice();
        let e: Vec<u8> = Vec::new();
        match self.kind {
            ConfigErrorKind::BasemapHasKey => three(
                "map ".as_bytes(),
                s,
                ": basemap cannot have a key".as_bytes(),
            ),
            ConfigErrorKind::MapTypeNotSet => three(
                "map ".as_bytes(),
                s,
                ": map_type not set".as_bytes(),
            ),
            ConfigErrorKind::FormatNeedsGdbm => {
                let mut r = three(
                    "map ".as_bytes(),
                    s,
                    ": cannot use format with map type ".as_bytes(),
                );
                push_all(&mut r, d);
                r
            },
            ConfigErrorKind::LuaFunctionNotSet => three(
                "map ".as_bytes(),
                s,
                ": lua_function not set".as_bytes(),
            ),
            ConfigErrorKind::LuaFunctionSet => three(
                "map ".as_bytes(),
                s,
                ": lua_function set, map_type must be \"lua\"".as_bytes(),
            ),
            ConfigErrorKind::NoKey => three("map ".as_bytes(), s, ": no key".as_bytes()),
            ConfigErrorKind::MapFileNotSet => three(
                "map ".as_bytes(),
                s,
                ": map file not set".as_bytes(),
            ),
            ConfigErrorKind::OutputWithFormat => {
                let mut r = three(
                    "map ".as_bytes(),
                    s,
                    ": cannot use output with format ".as_bytes(),
                );
                push_all(&mut r, d);
                r
            },
            ConfigErrorKind::AuthNotDefined => {
                let mut r = three("config: domain ".as_bytes(), s, ": auth ".as_bytes());
                push_all(&mut r, d);
                push_all(&mut r, " not defined".as_bytes());
                r
            },
            ConfigErrorKind::AuthKeyNotSet => three(
                "config: auth ".as_bytes(),
                s,
                ": 'key' not set".as_bytes(),
            ),
            ConfigErrorKind::AuthMapNotSet => three(
                "config: auth ".as_bytes(),
                s,
                ": 'map' not set".as_bytes(),
            ),
            ConfigErrorKind::TlsNoCertFiles => clone_bytes(
                "config: tls enabled but no cert files configured".as_bytes(),
            ),
            ConfigErrorKind::TlsIncomplete => clone_bytes(
                "config: both the key_file and crt_file must be set".as_bytes(),
            ),
        }
    }
}

/// A list of named entries after `e` was put in: in the place of the first
/// entry of that name, or at the end when the name is new.
pub open spec fn put<T>(l: Seq<(Vec<u8>, T)>, e: (Vec<u8>, T)) -> Seq<(Vec<u8>, T)> {
    let i = position(keys_of(l), e.0@);
    if 0 <= i < l.len() {
        l.update(i, e)
    } else {
        l.push(e)
    }
}

/// A list of named entries after the first `n` entries of `extra` were put in, in order.
pub open spec fn put_all<T>(l: Seq<(Vec<u8>, T)>, extra: Seq<(Vec<u8>, T)>, n: int) -> Seq<
    (Vec<u8>, T),
>
    decreases n,
{
    if n <= 0 {
        l
    } else {
        put(put_all(l, extra, n - 1), extra[n - 1])
    }
}

/// Adds the map definitions of an included file to those of the main file. A
/// definition of the included file takes the place of one with the same name.
pub fn merge_maps(map: &mut Vec<(Vec<u8>, MapOrMaps)>, extra: Vec<(Vec<u8>, MapOrMaps)>)
    ensures
        final(map)@ == put_all(old(map)@, extra@, extra@.len() as int),
{
    let mut extra = extra;
    let ghost all = extra@;
    let total: usize = extra.len();
    let mut n: usize = 0;
    while extra.len() > 0
        invariant
            n + extra@.len() == all.len(),
            all.len() == total,
            extra@ == all.skip(n as int),
            map@ == put_all(old(map)@, all, n as int),
        decreases extra@.len(),
    {
        let e = extra.remove(0);
        proof {
            assert(e == all[n as int]);
            assert(extra@ == all.skip(n + 1));
        }
        let i = find_key(map, e.0.as_slice());
        if i < map.len() {
            map.set(i, e);
        } else {
            map.push(e);
        }
        n += 1;
    }
}

/// The names of a list of domains.
pub open spec fn domain_names(d: Seq<Domain>) -> Seq<Seq<u8>> {
    d.map_values(|x: Domain| x.name@)
}

/// The key name that an incoming key name stands for in a definition: the
/// target of the first alias of that name, or the name itself.
pub open spec fn resolve(m: MapModel, key: Seq<u8>) -> Seq<u8> {
    let i = position(m.key_alias.map_values(|p: (Seq<u8>, Seq<u8>)| p.0), key);
    if 0 <= i < m.key_alias.len() {
        m.key_alias[i].1
    } else {
        key
    }
}

/// Whether a definition answers on a key name, aliases resolved.
pub open spec fn answers(m: MapModel, key: Seq<u8>) -> bool {
    m.key == Some(resolve(m, key)) || position(m.keys, resolve(m, key)) < m.keys.len()
}

/// A single definition without any key: only scripted maps have that shape.
pub open spec fn keyless(ms: Seq<MapModel>) -> bool {
    ms.len() == 1 && ms[0].key is None && ms[0].keys.len() == 0
}

/// For each definition, its index if it answers on the key.
pub open spec fn answering(ms: Seq<MapModel>, key: Seq<u8>) -> Seq<Option<int>> {
    Seq::new(
        ms.len(),
        |i: int|
            if answers(ms[i], key) {
                Some(i)
            } else {
                None
            },
    )
}

/// Which definition a lookup of `key` in the map `mapname` goes to: the index
/// of the name in the table, the index of the definition under it, and the
/// canonical key name. A keyless single definition takes any key; otherwise
/// the first definition that answers on the key does.
pub open spec fn find_map_spec(
    table: Seq<(Vec<u8>, Vec<MapDef>)>,
    mapname: Seq<u8>,
    key: Seq<u8>,
) -> Option<(int, int, Seq<u8>)> {
    let t = position(keys_of(table), mapname);
    if !(0 <= t < table.len()) {
        None
    } else {
        let ms = models(table[t].1@);
        if keyless(ms) {
            Some((t, 0, key))
        } else {
            match first_some(answering(ms, key), ms.len() as int) {
                Some(i) => Some((t, i, resolve(ms[i], key))),
                None => None,
            }
        }
    }
}

/// The canonical key name and whether the definition answers on it.
fn map_answers(m: &MapDef, key: &[u8]) -> (r: (bool, Vec<u8>))
    ensures
        r.0 == answers(m.model(), key@),
        r.1@ == resolve(m.model(), key@),
{
    proof {
        assert(m.model().key_alias.map_values(|p: (Seq<u8>, Seq<u8>)| p.0) =~= keys_of(
            m.key_alias@,
        ));
    }
    let i = find_key(&m.key_alias, key);
    let k = if i < m.key_alias.len() {
        clone_bytes(m.key_alias[i].1.as_slice())
    } else {
        clone_bytes(key)
    };
    let direct = match &m.key {
        Some(mk) => bytes_eq(mk.as_slice(), k.as_slice()),
        None => false,
    };
    let listed = find_in_list(&m.keys, k.as_slice()) < m.keys.len();
    (direct || listed, k)
}

impl Config {
    /// Looks up a domain by name: the first of that name.
    pub fn find_domain(&self, name: &[u8]) -> (r: Option<&Domain>)
        ensures
            match r {
                Some(d) => position(domain_names(self.domain@), name@) < self.domain@.len() && *d
                    == self.domain@[position(domain_names(self.domain@), name@)],
                None => position(domain_names(self.domain@), name@) >= self.domain@.len(),
            },
    {
        let ghost names = domain_names(self.domain@);
        let mut i: usize = 0;
        while i < self.domain.len()
            invariant
                i <= self.domain@.len(),
                names == domain_names(self.domain@),
                forall|j: int| 0 <= j < i ==> names[j] != name@,
            decreases self.domain@.len() - i,
        {
            if bytes_eq(self.domain[i].name.as_slice(), name) {
                proof {
                    lemma_position(names, name@);
                    let r = position(names, name@);
                    if r < i {
                        assert(names[r] == name@);
                    }
                    if i < r {
                        assert(names[i as int] != name@);
                    }
                }
                return Some(&self.domain[i]);
            }
            i += 1;
        }
        proof {
            lemma_position(names, name@);
            let r = position(names, name@);
            if r < names.len() {
                assert(names[r] == name@);
            }
        }
        None
    }

    /// Finds the definition that answers a lookup of `key` in the map
    /// `mapname`, and the canonical name of the key.
    pub fn find_map(&self, mapname: &[u8], key: &[u8]) -> (r: Option<(&MapDef, Vec<u8>)>)
        ensures
            match find_map_spec(self.map_@, mapname@, key@) {
                Some((t, i, k)) => r matches Some((m, rk)) && *m == self.map_@[t].1@[i] && rk@ == k,
                None => r is None,
            },
    {
        let t = find_key(&self.map_, mapname);
        if t >= self.map_.len() {
            return None;
        }
        let maps = &self.map_[t].1;
        let ghost ms = models(maps@);
        let ghost hits = answering(ms, key@);
        if maps.len() == 1 && maps[0].key.is_none() && maps[0].keys.len() == 0 {
            return Some((&maps[0], clone_bytes(key)));
        }
        assert(!keyless(ms));
        let mut i: usize = 0;
        while i < maps.len()
            invariant
                i <= maps@.len(),
                t == position(keys_of(self.map_@), mapname@),
                0 <= t < self.map_@.len(),
                *maps == self.map_@[t as int].1,
                !keyless(ms),
                ms == models(maps@),
                hits == answering(ms, key@),
                first_some(hits, i as int) is None,
            decreases maps@.len() - i,
        {
            let (yes, k) = map_answers(&maps[i], key);
            if yes {
                proof {
                    assert(hits[i as int] == Some(i as int));
                    lemma_first_some_stable(hits, i + 1, ms.len() as int);
                }
                return Some((&maps[i], k));
            }
            assert(hits[i as int] is None);
            i += 1;
        }
        None
    }

    /// Like `find_map`, but the map must be in the domain's list of maps.
    pub fn find_allowed_map(&self, domain: &Domain, mapname: &[u8], key: &[u8]) -> (r: Option<
        (&MapDef, Vec<u8>),
    >)
        ensures
            position(views(domain.maps@), mapname@) >= domain.maps@.len() ==> r is None,
            position(views(domain.maps@), mapname@) < domain.maps@.len() ==> match find_map_spec(
                self.map_@,
                mapname@,
                key@,
            ) {
                Some((t, i, k)) => r matches Some((m, rk)) && *m == self.map_@[t].1@[i] && rk@ == k,
                None => r is None,
            },
    {
        if find_in_list(&domain.maps, mapname) >= domain.maps.len() {
            return None;
        }
        self.find_map(mapname, key)
    }
}

/// The position of the lowest set bit of a mask at or above position `i`; 32 if there is none.
pub open spec fn lowest_bit(mask: u32, i: nat) -> nat
    decreases 32 - i,
{
    if i >= 32 {
        32
    } else if mask & (1u32 << (i as u32)) != 0 {
        i
    } else {
        lowest_bit(mask, i + 1)
    }
}

/// The length of the network prefix that a netmask stands for: 32 less the
/// number of zero bits below its lowest set bit.
pub open spec fn mask_prefix(mask: u32) -> u8 {
    (32 - lowest_bit(mask, 0)) as u8
}

/// The length of the network prefix that a dotted-quad netmask stands for.
pub fn masklen(mask: u32) -> (r: u8)
    ensures
        r == mask_prefix(mask),
        r <= 32,
{
    let mut i: u32 = 0;
    while i < 32
        invariant
            i <= 32,
            lowest_bit(mask, 0) == lowest_bit(mask, i as nat),
        decreases 32 - i,
    {
        if mask & (1u32 << i) > 0 {
            return (32 - i) as u8;
        }
        i += 1;
    }
    0
}

} // verus!
