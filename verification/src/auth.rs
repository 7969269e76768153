//! Bearer-token policy, claim navigation, role resolution, and the
//! per-request session prologue that binds the resolved identity to
//! database authorization. Cryptographic verification of tokens
//! happens at the boundary; the policy deciding what to verify, and
//! everything after the claims are in hand, is here.

use vstd::prelude::*;
use crate::config::{AppConfig, AuthMode};
use crate::error::Error;
use crate::jsonval::{JsonVal, JsonV, json_view, json_to_string, obj_get, obj_view, spec_obj_get, spec_json_str, lemma_obj_view_index};
use crate::query::strs_view;
use crate::text;

verus! {

/// The claims carried by a verified token: the registered members the
/// pipeline reads, and every other claim as a key-value list.
#[derive(Debug)]
pub struct Claims {
    pub role: Option<String>,
    pub sub: Option<String>,
    pub exp: Option<u64>,
    pub iat: Option<u64>,
    pub nbf: Option<u64>,
    pub extra: Vec<(String, JsonVal)>,
}

/// A string with every single quote doubled, safe between quotes in
/// the session prologue.
pub open spec fn spec_escape_squote(s: Seq<char>) -> Seq<char>
    decreases s.len(),
{
    if s.len() == 0 {
        Seq::empty()
    } else {
        (if s[0] == '\'' {
            seq!['\'', '\'']
        } else {
            seq![s[0]]
        }) + spec_escape_squote(s.subrange(1, s.len() as int))
    }
}

/// Doubles every single quote of an inlined literal.
pub fn escape_literal(s: &str) -> (r: String)
    ensures
        r@ == spec_escape_squote(s@),
{
    let sl = s.unicode_len();
    let mut out = String::new();
    let mut i: usize = 0;
    proof {
        assert(s@.subrange(0, sl as int) =~= s@);
        assert(out@ + spec_escape_squote(s@) =~= spec_escape_squote(s@));
    }
    while i < sl
        invariant
            sl == s@.len(),
            i <= sl,
            spec_escape_squote(s@) == out@ + spec_escape_squote(
                s@.subrange(i as int, sl as int),
            ),
        decreases sl - i,
    {
        let ghost rest = s@.subrange(i as int, sl as int);
        proof {
            assert(rest[0] == s@[i as int]);
            assert(rest.subrange(1, rest.len() as int) =~= s@.subrange(i + 1, sl as int));
        }
        let c = s.get_char(i);
        let ghost prev = out@;
        if c == '\'' {
            out.append("''");
            proof {
                reveal_strlit("''");
                assert(out@ =~= prev + seq!['\'', '\'']);
                assert(out@ + spec_escape_squote(s@.subrange(i + 1, sl as int)) =~= prev
                    + spec_escape_squote(rest));
            }
        } else {
            let tmp = s.substring_char(i, i + 1);
            out.append(tmp);
            proof {
                assert(s@.subrange(i as int, i + 1) =~= seq![s@[i as int]]);
                assert(out@ + spec_escape_squote(s@.subrange(i + 1, sl as int)) =~= prev
                    + spec_escape_squote(rest));
            }
        }
        i += 1;
    }
    proof {
        assert(s@.subrange(sl as int, sl as int) =~= Seq::<char>::empty());
        assert(out@ + Seq::<char>::empty() =~= out@);
    }
    out
}

/// Descent through nested objects along the already-split path.
pub open spec fn spec_navigate(v: JsonV, parts: Seq<Seq<char>>) -> Option<JsonV>
    decreases parts.len(),
{
    if parts.len() == 0 {
        Some(v)
    } else {
        match v {
            JsonV::ObjV(pairs) => match spec_obj_get(pairs, parts[0]) {
                Some(x) => spec_navigate(x, parts.subrange(1, parts.len() as int)),
                None => None,
            },
            _ => None,
        }
    }
}

/// Model of `navigate_claim`: descend along the dot-separated path.
pub open spec fn spec_navigate_claim(v: JsonV, path: Seq<char>) -> Option<JsonV> {
    spec_navigate(v, text::spec_split(path, '.'))
}

/// Navigates a JSON value along a dotted path such as
/// `realm_access.roles`.
pub fn navigate_claim<'a>(value: &'a JsonVal, path: &str) -> (r: Option<&'a JsonVal>)
    ensures
        match r {
            Some(v) => spec_navigate_claim(value@, path@) == Some(v@),
            None => spec_navigate_claim(value@, path@) is None,
        },
{
    let parts = text::split_char(path, '.');
    let ghost pieces = text::spec_split(path@, '.');
    let mut cur: &JsonVal = value;
    let mut i: usize = 0;
    proof {
        assert(pieces.subrange(0, pieces.len() as int) =~= pieces);
    }
    while i < parts.len()
        invariant
            parts@.map_values(|p: String| p@) == pieces,
            i <= parts.len(),
            spec_navigate_claim(value@, path@) == spec_navigate(
                cur@,
                pieces.subrange(i as int, pieces.len() as int),
            ),
        decreases parts.len() - i,
    {
        let ghost rest = pieces.subrange(i as int, pieces.len() as int);
        proof {
            assert(rest[0] == pieces[i as int]);
            assert(pieces[i as int] == parts@.map_values(|p: String| p@)[i as int]);
            assert(rest.subrange(1, rest.len() as int) =~= pieces.subrange(
                i + 1,
                pieces.len() as int,
            ));
        }
        match cur {
            JsonVal::Obj(pairs) => {
                proof {
                    assert(cur@ == JsonV::ObjV(obj_view(pairs@)));
                }
                match obj_get(pairs, parts[i].as_str()) {
                    Some(next) => {
                        cur = next;
                    },
                    None => {
                        return None;
                    },
                }
            },
            _ => {
                return None;
            },
        }
        i += 1;
    }
    proof {
        assert(pieces.subrange(i as int, pieces.len() as int) =~= Seq::<Seq<char>>::empty());
    }
    Some(cur)
}

/// The model of the combined claim object.
pub open spec fn spec_claims_root_of(claims: &Claims) -> JsonV {
    JsonV::ObjV(
        obj_view(claims.extra@) + (match claims.role {
            Some(r) => seq![("role"@, JsonV::StrV(r@))],
            None => Seq::<(Seq<char>, JsonV)>::empty(),
        }) + (match claims.sub {
            Some(s) => seq![("sub"@, JsonV::StrV(s@))],
            None => Seq::<(Seq<char>, JsonV)>::empty(),
        }),
    )
}

/// The combined claim object: every extra claim first (so a duplicate
/// registered name reads as the token supplied it), then the `role`
/// and `sub` members when present.
pub fn claims_root(claims: &Claims) -> (r: JsonVal)
    ensures
        r@ == spec_claims_root_of(claims),
{
    let mut pairs: Vec<(String, JsonVal)> = Vec::new();
    let mut i: usize = 0;
    proof {
        lemma_obj_view_index(claims.extra@);
    }
    while i < claims.extra.len()
        invariant
            i <= claims.extra@.len(),
            pairs@.len() == i,
            obj_view(claims.extra@).len() == claims.extra@.len(),
            forall|k: int|
                0 <= k < claims.extra@.len() ==> obj_view(claims.extra@)[k] == (
                claims.extra@[k].0@,
                json_view(claims.extra@[k].1),
                ),
            forall|k: int|
                0 <= k < i ==> pairs@[k].0@ == claims.extra@[k].0@ && json_view(pairs@[k].1)
                    == json_view(claims.extra@[k].1),
        decreases claims.extra.len() - i,
    {
        let key = claims.extra[i].0.clone();
        let v = crate::jsonval::json_dup(&claims.extra[i].1);
        pairs.push((key, v));
        i += 1;
    }
    proof {
        lemma_obj_view_index(pairs@);
        assert(obj_view(pairs@) =~= obj_view(claims.extra@));
    }
    match &claims.role {
        Some(role) => {
            let ghost prev = pairs@;
            pairs.push(("role".to_owned(), JsonVal::Str(role.clone())));
            proof {
                lemma_obj_view_index(pairs@);
                lemma_obj_view_index(prev);
                assert(obj_view(pairs@) =~= obj_view(prev) + seq![
                    ("role"@, JsonV::StrV(claims.role->0@)),
                ]);
            }
        },
        None => {
        },
    }
    match &claims.sub {
        Some(sub) => {
            let ghost prev = pairs@;
            pairs.push(("sub".to_owned(), JsonVal::Str(sub.clone())));
            proof {
                lemma_obj_view_index(pairs@);
                lemma_obj_view_index(prev);
                assert(obj_view(pairs@) =~= obj_view(prev) + seq![
                    ("sub"@, JsonV::StrV(claims.sub->0@)),
                ]);
            }
        },
        None => {
        },
    }
    proof {
        assert(json_view(JsonVal::Obj(pairs)) == JsonV::ObjV(obj_view(pairs@)));
        assert(obj_view(pairs@) =~= (obj_view(claims.extra@) + (match claims.role {
            Some(r) => seq![("role"@, JsonV::StrV(r@))],
            None => Seq::<(Seq<char>, JsonV)>::empty(),
        }) + (match claims.sub {
            Some(s) => seq![("sub"@, JsonV::StrV(s@))],
            None => Seq::<(Seq<char>, JsonV)>::empty(),
        })));
    }
    JsonVal::Obj(pairs)
}

/// The first mapping of a role token in the role table.
pub open spec fn spec_role_map_get(map: Seq<(Seq<char>, Seq<char>)>, key: Seq<char>) -> Option<
    Seq<char>,
>
    decreases map.len(),
{
    if map.len() == 0 {
        None
    } else if map[0].0 == key {
        Some(map[0].1)
    } else {
        spec_role_map_get(map.subrange(1, map.len() as int), key)
    }
}

/// Looks a role token up in the role table; the first entry wins.
pub fn role_map_get(map: &Vec<(String, String)>, key: &str) -> (r: Option<String>)
    ensures
        ({
            let mv = map@.map_values(|p: (String, String)| (p.0@, p.1@));
            match r {
                Some(v) => spec_role_map_get(mv, key@) == Some(v@),
                None => spec_role_map_get(mv, key@) is None,
            }
        }),
{
    let ghost mv = map@.map_values(|p: (String, String)| (p.0@, p.1@));
    let mut i: usize = 0;
    while i < map.len()
        invariant
            mv == map@.map_values(|p: (String, String)| (p.0@, p.1@)),
            mv.len() == map@.len(),
            forall|k: int| 0 <= k < mv.len() ==> mv[k] == (map@[k].0@, map@[k].1@),
            i <= map@.len(),
            forall|j: int| 0 <= j < i ==> mv[j].0 != key@,
        decreases map.len() - i,
    {
        if text::str_eq(map[i].0.as_str(), key) {
            let v = map[i].1.clone();
            proof {
                lemma_role_map_found(mv, key@, i as int);
            }
            return Some(v);
        }
        i += 1;
    }
    proof {
        lemma_role_map_none(mv, key@);
    }
    None
}

proof fn lemma_role_map_found(map: Seq<(Seq<char>, Seq<char>)>, key: Seq<char>, w: int)
    requires
        0 <= w < map.len(),
        map[w].0 == key,
        forall|j: int| 0 <= j < w ==> map[j].0 != key,
    ensures
        spec_role_map_get(map, key) == Some(map[w].1),
    decreases w,
{
    if w > 0 {
        let tail = map.subrange(1, map.len() as int);
        assert(tail[w - 1] == map[w]);
        assert forall|j: int| 0 <= j < w - 1 implies tail[j].0 != key by {
            assert(tail[j] == map[j + 1]);
        }
        lemma_role_map_found(tail, key, w - 1);
    }
}

proof fn lemma_role_map_none(map: Seq<(Seq<char>, Seq<char>)>, key: Seq<char>)
    requires
        forall|j: int| 0 <= j < map.len() ==> map[j].0 != key,
    ensures
        spec_role_map_get(map, key) is None,
    decreases map.len(),
{
    if map.len() > 0 {
        let tail = map.subrange(1, map.len() as int);
        assert forall|j: int| 0 <= j < tail.len() implies tail[j].0 != key by {
            assert(tail[j] == map[j + 1]);
        }
        lemma_role_map_none(tail, key);
    }
}

/// What the role claim's value resolves to. For an array, the first
/// string with a role-table entry wins; with an empty table, the first
/// string. A lone string maps through the table or stands as is; any
/// other value reads as its JSON text.
pub open spec fn spec_role_of_value(
    v: JsonV,
    role_map: Seq<(Seq<char>, Seq<char>)>,
) -> Option<Seq<char>> {
    match v {
        JsonV::ArrV(items) => spec_role_of_array(items, role_map),
        JsonV::StrV(s) => match spec_role_map_get(role_map, s) {
            Some(m) => Some(m),
            None => Some(s),
        },
        other => Some(spec_json_str(other)),
    }
}

/// The first usable role in an array claim.
pub open spec fn spec_role_of_array(
    items: Seq<JsonV>,
    role_map: Seq<(Seq<char>, Seq<char>)>,
) -> Option<Seq<char>>
    decreases items.len(),
{
    if items.len() == 0 {
        None
    } else {
        match items[0] {
            JsonV::StrV(s) => match spec_role_map_get(role_map, s) {
                Some(m) => Some(m),
                None => if role_map.len() == 0 {
                    Some(s)
                } else {
                    spec_role_of_array(items.subrange(1, items.len() as int), role_map)
                },
            },
            _ => spec_role_of_array(items.subrange(1, items.len() as int), role_map),
        }
    }
}

/// The role the claims resolve to, as a model value.
pub open spec fn spec_resolve_role(claims: &Claims, config: &AppConfig) -> Option<Seq<char>> {
    let mv = config.role_map@.map_values(|p: (String, String)| (p.0@, p.1@));
    match spec_navigate_claim(spec_claims_root_of(claims), config.role_claim@) {
        Some(v) => spec_role_of_value(v, mv),
        None => None,
    }
}

/// Resolves the configured role claim to a role value.
pub fn resolve_role(claims: &Claims, config: &AppConfig) -> (r: Option<String>)
    ensures
        match r {
            Some(role) => spec_resolve_role(claims, config) == Some(role@),
            None => spec_resolve_role(claims, config) is None,
        },
{
    let root = claims_root(claims);
    let value = match navigate_claim(&root, config.role_claim.as_str()) {
        Some(v) => v,
        None => {
            return None;
        },
    };
    match value {
        JsonVal::Arr(items) => {
            let ghost iv = crate::jsonval::jsons_view(items@);
            let ghost mv = config.role_map@.map_values(|p: (String, String)| (p.0@, p.1@));
            proof {
                crate::jsonval::lemma_jsons_view_index(items@);
                assert(iv.subrange(0, iv.len() as int) =~= iv);
            }
            let ghost model_value = json_view(*value);
            proof {
                assert(model_value == JsonV::ArrV(iv));
            }
            let mut i: usize = 0;
            while i < items.len()
                invariant
                    iv == crate::jsonval::jsons_view(items@),
                    iv.len() == items@.len(),
                    forall|k: int| 0 <= k < iv.len() ==> iv[k] == json_view(items@[k]),
                    mv == config.role_map@.map_values(|p: (String, String)| (p.0@, p.1@)),
                    mv.len() == config.role_map@.len(),
                    i <= items@.len(),
                    spec_navigate_claim(spec_claims_root_of(claims), config.role_claim@) == Some(
                        JsonV::ArrV(iv),
                    ),
                    spec_role_of_array(iv, mv) == spec_role_of_array(
                        iv.subrange(i as int, iv.len() as int),
                        mv,
                    ),
                decreases items.len() - i,
            {
                let ghost rest = iv.subrange(i as int, iv.len() as int);
                proof {
                    assert(rest[0] == iv[i as int]);
                    assert(rest.subrange(1, rest.len() as int) =~= iv.subrange(
                        i + 1,
                        iv.len() as int,
                    ));
                }
                match &items[i] {
                    JsonVal::Str(s) => {
                        proof {
                            assert(iv[i as int] == JsonV::StrV(s@));
                        }
                        match role_map_get(&config.role_map, s.as_str()) {
                            Some(mapped) => {
                                proof {
                                    assert(spec_role_of_array(rest, mv) == Some(mapped@));
                                }
                                return Some(mapped);
                            },
                            None => {
                                if config.role_map.len() == 0 {
                                    proof {
                                        assert(spec_role_of_array(rest, mv) == Some(s@));
                                    }
                                    return Some(s.clone());
                                }
                            },
                        }
                    },
                    _ => {
                    },
                }
                i += 1;
            }
            proof {
                assert(iv.subrange(i as int, iv.len() as int) =~= Seq::<JsonV>::empty());
            }
            None
        },
        JsonVal::Str(s) => {
            match role_map_get(&config.role_map, s.as_str()) {
                Some(mapped) => Some(mapped),
                None => Some(s.clone()),
            }
        },
        other => Some(json_to_string(other)),
    }
}

/// The database principal the request runs as, as a model value: the
/// resolved role, else the configured anonymous role.
pub open spec fn spec_db_user(claims: &Option<Claims>, config: &AppConfig) -> Option<Seq<char>> {
    let fallback = match config.anon_role {
        Some(ref a) => Some(a@),
        None => None,
    };
    match claims {
        Some(c) => match spec_resolve_role(c, config) {
            Some(role) => Some(role),
            None => fallback,
        },
        None => fallback,
    }
}

/// Maps the resolved role (or its absence) to the database principal:
/// the resolved role itself, else the configured anonymous role.
pub fn map_to_db_user(claims: &Option<Claims>, config: &AppConfig) -> (r: Option<String>)
    ensures
        match r {
            Some(u) => spec_db_user(claims, config) == Some(u@),
            None => spec_db_user(claims, config) is None,
        },
{
    match claims {
        Some(c) => {
            match resolve_role(c, config) {
                Some(role) => Some(role),
                None => match &config.anon_role {
                    Some(a) => Some(a.clone()),
                    None => None,
                },
            }
        },
        None => match &config.anon_role {
            Some(a) => Some(a.clone()),
            None => None,
        },
    }
}

/// The impersonation statement for a principal.
pub open spec fn spec_execute_as(user: Seq<char>) -> Seq<char> {
    "EXECUTE AS USER = '"@ + spec_escape_squote(user) + "';"@
}

/// The session-context statement for one claim.
pub open spec fn spec_set_context(key: Seq<char>, value: Seq<char>) -> Seq<char> {
    "EXEC sp_set_session_context N'request.jwt.claim."@ + spec_escape_squote(key) + "', N'"@
        + spec_escape_squote(value) + "';"@
}

/// Renders the impersonation statement.
pub fn execute_as_stmt(user: &str) -> (r: String)
    ensures
        r@ == spec_execute_as(user@),
{
    let mut s = String::new();
    s.append("EXECUTE AS USER = '");
    let esc = escape_literal(user);
    s.append(esc.as_str());
    s.append("';");
    proof {
        assert(s@ =~= spec_execute_as(user@));
    }
    s
}

/// Renders one session-context statement.
pub fn set_context_stmt(key: &str, value: &str) -> (r: String)
    ensures
        r@ == spec_set_context(key@, value@),
{
    let mut s = String::new();
    s.append("EXEC sp_set_session_context N'request.jwt.claim.");
    let ek = escape_literal(key);
    s.append(ek.as_str());
    s.append("', N'");
    let ev = escape_literal(value);
    s.append(ev.as_str());
    s.append("';");
    proof {
        assert(s@ =~= spec_set_context(key@, value@));
    }
    s
}

/// The text a claim value carries into the session context.
pub fn claim_value_text(v: &JsonVal) -> (r: String)
    ensures
        r@ == (match v@ {
            JsonV::StrV(s) => s,
            other => spec_json_str(other),
        }),
{
    match v {
        JsonVal::Str(s) => s.clone(),
        other => json_to_string(other),
    }
}

/// The text a claim value carries, as a model value.
pub open spec fn spec_claim_text(v: JsonV) -> Seq<char> {
    match v {
        JsonV::StrV(s) => s,
        other => spec_json_str(other),
    }
}

/// The context statements for the configured claim names, in order;
/// names the token does not carry contribute none.
pub open spec fn spec_ctx_stmts(
    extra: Seq<(Seq<char>, JsonV)>,
    names: Seq<Seq<char>>,
) -> Seq<Seq<char>>
    decreases names.len(),
{
    if names.len() == 0 {
        Seq::empty()
    } else {
        let rest = spec_ctx_stmts(extra, names.subrange(1, names.len() as int));
        match spec_obj_get(extra, names[0]) {
            Some(v) => seq![spec_set_context(names[0], spec_claim_text(v))] + rest,
            None => rest,
        }
    }
}

/// Model of `build_session_sql`: impersonation when a principal was
/// resolved, then one context statement per configured claim carried.
pub open spec fn spec_session_sql(claims: &Option<Claims>, config: &AppConfig) -> Seq<Seq<char>> {
    (match spec_db_user(claims, config) {
        Some(u) => seq![spec_execute_as(u)],
        None => Seq::<Seq<char>>::empty(),
    }) + (match claims {
        Some(c) => spec_ctx_stmts(obj_view(c.extra@), strs_view(config.context_claims@)),
        None => Seq::<Seq<char>>::empty(),
    })
}

/// Builds the per-request session prologue: impersonation when a
/// principal was resolved, then one session-context statement for each
/// configured context claim the token carries.
pub fn build_session_sql(claims: &Option<Claims>, config: &AppConfig) -> (r: Vec<String>)
    ensures
        strs_view(r@) == spec_session_sql(claims, config),
{
    let mut stmts: Vec<String> = Vec::new();
    let db_user = map_to_db_user(claims, config);
    match db_user {
        Some(user) => {
            let stmt = execute_as_stmt(user.as_str());
            stmts.push(stmt);
            proof {
                assert(strs_view(stmts@) =~= seq![spec_execute_as(spec_db_user(claims, config)->0)]);
            }
        },
        None => {
            proof {
                assert(strs_view(stmts@) =~= Seq::<Seq<char>>::empty());
            }
        },
    }
    let ghost head = strs_view(stmts@);
    match claims {
        Some(c) => {
            let ghost extra = obj_view(c.extra@);
            let ghost names = strs_view(config.context_claims@);
            let mut i: usize = 0;
            proof {
                assert(names.subrange(0, names.len() as int) =~= names);
                assert(head + spec_ctx_stmts(extra, names) =~= head + spec_ctx_stmts(
                    extra,
                    names.subrange(0, names.len() as int),
                ));
            }
            while i < config.context_claims.len()
                invariant
                    extra == obj_view(c.extra@),
                    names == strs_view(config.context_claims@),
                    names.len() == config.context_claims@.len(),
                    forall|k: int| 0 <= k < names.len() ==> names[k] == config.context_claims@[k]@,
                    i <= names.len(),
                    head + spec_ctx_stmts(extra, names) == strs_view(stmts@) + spec_ctx_stmts(
                        extra,
                        names.subrange(i as int, names.len() as int),
                    ),
                decreases config.context_claims.len() - i,
            {
                let ghost rest = names.subrange(i as int, names.len() as int);
                proof {
                    assert(rest[0] == names[i as int]);
                    assert(rest.subrange(1, rest.len() as int) =~= names.subrange(
                        i + 1,
                        names.len() as int,
                    ));
                }
                match obj_get(&c.extra, config.context_claims[i].as_str()) {
                    Some(v) => {
                        let vt = claim_value_text(v);
                        let stmt = set_context_stmt(
                            config.context_claims[i].as_str(),
                            vt.as_str(),
                        );
                        let ghost prev = stmts@;
                        let ghost sv = stmt@;
                        stmts.push(stmt);
                        proof {
                            assert(strs_view(stmts@) =~= strs_view(prev) + seq![sv]);
                            assert((strs_view(prev) + seq![sv]) + spec_ctx_stmts(
                                extra,
                                names.subrange(i + 1, names.len() as int),
                            ) =~= strs_view(prev) + (seq![sv] + spec_ctx_stmts(
                                extra,
                                names.subrange(i + 1, names.len() as int),
                            )));
                        }
                    },
                    None => {
                    },
                }
                i += 1;
            }
            proof {
                assert(names.subrange(i as int, names.len() as int) =~= Seq::<Seq<char>>::empty());
                assert(strs_view(stmts@) + Seq::<Seq<char>>::empty() =~= strs_view(stmts@));
            }
        },
        None => {
            proof {
                assert(head + Seq::<Seq<char>>::empty() =~= head);
            }
        },
    }
    stmts
}

/// The context statements the legacy prologue sets: `sub` and `role`
/// when present, then every extra claim in order.
pub open spec fn spec_legacy_ctx(c: &Claims) -> Seq<Seq<char>> {
    (match c.sub {
        Some(ref sub) => seq![spec_set_context("sub"@, sub@)],
        None => Seq::<Seq<char>>::empty(),
    }) + (match c.role {
        Some(ref role) => seq![spec_set_context("role"@, role@)],
        None => Seq::<Seq<char>>::empty(),
    }) + spec_all_extra(obj_view(c.extra@))
}

/// One context statement per extra claim, in order.
pub open spec fn spec_all_extra(extra: Seq<(Seq<char>, JsonV)>) -> Seq<Seq<char>>
    decreases extra.len(),
{
    if extra.len() == 0 {
        Seq::empty()
    } else {
        seq![spec_set_context(extra[0].0, spec_claim_text(extra[0].1))] + spec_all_extra(
            extra.subrange(1, extra.len() as int),
        )
    }
}

/// Model of `build_session_context_sql`: with configured context
/// claims, only those are set; otherwise every claim, `sub` and `role`
/// first.
pub open spec fn spec_session_context_sql(
    claims: &Option<Claims>,
    config: &AppConfig,
) -> Seq<Seq<char>> {
    if config.context_claims@.len() > 0 {
        spec_session_sql(claims, config)
    } else {
        (match spec_db_user(claims, config) {
            Some(u) => seq![spec_execute_as(u)],
            None => Seq::<Seq<char>>::empty(),
        }) + (match claims {
            Some(c) => spec_legacy_ctx(c),
            None => Seq::<Seq<char>>::empty(),
        })
    }
}

/// Builds the session prologue. With configured context claims, only
/// those are set; otherwise every claim is set, `sub` and `role`
/// first.
pub fn build_session_context_sql(claims: &Option<Claims>, config: &AppConfig) -> (r: Vec<String>)
    ensures
        strs_view(r@) == spec_session_context_sql(claims, config),
{
    if config.context_claims.len() > 0 {
        return build_session_sql(claims, config);
    }
    let mut stmts: Vec<String> = Vec::new();
    let db_user = map_to_db_user(claims, config);
    match db_user {
        Some(user) => {
            let stmt = execute_as_stmt(user.as_str());
            stmts.push(stmt);
            proof {
                assert(strs_view(stmts@) =~= seq![spec_execute_as(spec_db_user(claims, config)->0)]);
            }
        },
        None => {
            proof {
                assert(strs_view(stmts@) =~= Seq::<Seq<char>>::empty());
            }
        },
    }
    let ghost head = strs_view(stmts@);
    match claims {
        Some(c) => {
            match &c.sub {
                Some(sub) => {
                    let ghost prev = stmts@;
                    let stmt = set_context_stmt("sub", sub.as_str());
                    let ghost sv = stmt@;
                    stmts.push(stmt);
                    proof {
                        assert(strs_view(stmts@) =~= strs_view(prev) + seq![sv]);
                    }
                },
                None => {
                },
            }
            match &c.role {
                Some(role) => {
                    let ghost prev = stmts@;
                    let stmt = set_context_stmt("role", role.as_str());
                    let ghost sv = stmt@;
                    stmts.push(stmt);
                    proof {
                        assert(strs_view(stmts@) =~= strs_view(prev) + seq![sv]);
                    }
                },
                None => {
                },
            }
            let ghost extra = obj_view(c.extra@);
            let ghost mid = strs_view(stmts@);
            proof {
                lemma_obj_view_index(c.extra@);
                assert(extra.subrange(0, extra.len() as int) =~= extra);
                assert(mid + spec_all_extra(extra) =~= mid + spec_all_extra(
                    extra.subrange(0, extra.len() as int),
                ));
            }
            let mut i: usize = 0;
            while i < c.extra.len()
                invariant
                    extra == obj_view(c.extra@),
                    extra.len() == c.extra@.len(),
                    forall|k: int|
                        0 <= k < extra.len() ==> extra[k] == (
                        c.extra@[k].0@,
                        crate::jsonval::json_view(c.extra@[k].1),
                        ),
                    i <= extra.len(),
                    mid + spec_all_extra(extra) == strs_view(stmts@) + spec_all_extra(
                        extra.subrange(i as int, extra.len() as int),
                    ),
                decreases c.extra.len() - i,
            {
                let ghost rest = extra.subrange(i as int, extra.len() as int);
                proof {
                    assert(rest[0] == extra[i as int]);
                    assert(rest.subrange(1, rest.len() as int) =~= extra.subrange(
                        i + 1,
                        extra.len() as int,
                    ));
                }
                let vt = claim_value_text(&c.extra[i].1);
                let ghost prev = stmts@;
                let stmt = set_context_stmt(c.extra[i].0.as_str(), vt.as_str());
                let ghost sv = stmt@;
                stmts.push(stmt);
                proof {
                    assert(strs_view(stmts@) =~= strs_view(prev) + seq![sv]);
                    assert((strs_view(prev) + seq![sv]) + spec_all_extra(
                        extra.subrange(i + 1, extra.len() as int),
                    ) =~= strs_view(prev) + (seq![sv] + spec_all_extra(
                        extra.subrange(i + 1, extra.len() as int),
                    )));
                }
                i += 1;
            }
            proof {
                assert(extra.subrange(i as int, extra.len() as int) =~= Seq::<
                    (Seq<char>, JsonV),
                >::empty());
                assert(strs_view(stmts@) + Seq::<Seq<char>>::empty() =~= strs_view(stmts@));
                assert(strs_view(stmts@) =~= head + spec_legacy_ctx(c));
            }
        },
        None => {
            proof {
                assert(head + Seq::<Seq<char>>::empty() =~= head);
            }
        },
    }
    stmts
}

/// The revert statement for pooled connections that impersonated.
pub fn build_revert_sql() -> (r: &'static str)
    ensures
        r@ == "IF EXISTS (SELECT 1 FROM sys.login_token WHERE usage = 'DENY ONLY') REVERT;"@,
{
    "IF EXISTS (SELECT 1 FROM sys.login_token WHERE usage = 'DENY ONLY') REVERT;"
}

/// What a request's credentials call for, before any cryptography.
pub enum AuthDecision {
    Anonymous,
    Reject(Error),
    VerifyHs256(String),
    VerifyOidc(String),
}

/// Mathematical model of the decision.
pub enum AuthPlanV {
    AnonymousV,
    RejectV(Seq<char>),
    VerifyHs256V(Seq<char>),
    VerifyOidcV(Seq<char>),
}

/// Model of the bearer-token policy.
pub open spec fn spec_auth_plan(
    header: Option<Seq<char>>,
    mode: AuthMode,
    has_secret: bool,
    has_anon: bool,
) -> AuthPlanV {
    match mode {
        AuthMode::Disabled => AuthPlanV::AnonymousV,
        _ => {
            if mode == AuthMode::JwtSecret && !has_secret {
                AuthPlanV::AnonymousV
            } else {
                match header {
                    Some(h) => {
                        if text::is_prefix("Bearer "@, h) {
                            let token = text::spec_trim(h.subrange(7, h.len() as int));
                            if mode == AuthMode::JwtSecret {
                                AuthPlanV::VerifyHs256V(token)
                            } else {
                                AuthPlanV::VerifyOidcV(token)
                            }
                        } else {
                            AuthPlanV::RejectV("Authorization header must use Bearer scheme"@)
                        }
                    },
                    None => {
                        if has_anon {
                            AuthPlanV::AnonymousV
                        } else {
                            AuthPlanV::RejectV("Authentication required"@)
                        }
                    },
                }
            }
        },
    }
}

/// Decides what a request's credentials call for: anonymous access, a
/// rejection, or a token to verify (whose verification is the
/// boundary's work).
pub fn plan_authentication(auth_header: Option<&str>, config: &AppConfig) -> (r: AuthDecision)
    ensures
        ({
            let hv = match auth_header {
                Some(h) => Some(h@),
                None => None,
            };
            let model = spec_auth_plan(
                hv,
                config.auth_mode,
                config.jwt_secret is Some,
                config.anon_role is Some,
            );
            match r {
                AuthDecision::Anonymous => model is AnonymousV,
                AuthDecision::Reject(e) => (model matches AuthPlanV::RejectV(m) && (
                e matches Error::Unauthorized(em) && em@ == m)),
                AuthDecision::VerifyHs256(t) => model matches AuthPlanV::VerifyHs256V(mt) && mt
                    == t@,
                AuthDecision::VerifyOidc(t) => model matches AuthPlanV::VerifyOidcV(mt) && mt
                    == t@,
            }
        }),
{
    proof {
        reveal_strlit("Bearer ");
    }
    match config.auth_mode {
        AuthMode::Disabled => AuthDecision::Anonymous,
        _ => {
            let is_jwt = config.auth_mode == AuthMode::JwtSecret;
            if is_jwt && config.jwt_secret.is_none() {
                return AuthDecision::Anonymous;
            }
            match auth_header {
                Some(h) => {
                    if text::has_prefix(h, "Bearer ") {
                        let tail = text::suffix_from(h, 7);
                        let token = text::trim(tail.as_str());
                        if is_jwt {
                            AuthDecision::VerifyHs256(token)
                        } else {
                            AuthDecision::VerifyOidc(token)
                        }
                    } else {
                        AuthDecision::Reject(
                            Error::Unauthorized(
                                "Authorization header must use Bearer scheme".to_owned(),
                            ),
                        )
                    }
                },
                None => {
                    if config.anon_role.is_some() {
                        AuthDecision::Anonymous
                    } else {
                        AuthDecision::Reject(
                            Error::Unauthorized("Authentication required".to_owned()),
                        )
                    }
                },
            }
        },
    }
}

} // verus!
