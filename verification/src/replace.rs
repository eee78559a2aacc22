//! Replace rules: in-place rewrites of fields of a DSL document before it is
//! imported into another environment.

use vstd::prelude::*;

use crate::json::{
    entries_view, find_key, json_compact_text, json_text_value, key_pos, lemma_array_view,
    lemma_object_view, serde_json_from_str, serde_json_to_string, value_from_serde,
    value_to_serde, Json, JsonValue,
};
use crate::text::{
    chars_eq, chars_of, chars_replace_all, chars_split, opt_view, owned, replace_all,
    split_char, string_of, views, lemma_split_nonempty,
};

verus! {

/// A rule that rewrites one field wherever a path leads to it.
///
/// `path` reads `segment.segment...:key`: the segments lead through objects
/// to an object whose `key` is rewritten. An array met anywhere on the way,
/// the end of the path included, is entered member by member with what is
/// left of the path. The field is rewritten to `to` where its current text equals
/// `from`, or whatever it holds where `from` is `*`. `to` is taken as JSON
/// where it reads as JSON (so `true` or `42` keep their type), and as a
/// string otherwise.
pub struct ReplaceRule {
    pub path: String,
    pub from: String,
    pub to: String,
}

/// The text a field is compared by: a string's own text, and the compact
/// JSON text of any other value.
pub open spec fn value_text(v: Json) -> Option<Seq<char>> {
    match v {
        Json::Str(s) => Some(s),
        _ => json_compact_text(v),
    }
}

/// The value a field is rewritten to: `to` read as JSON, or the string `to`.
pub open spec fn replacement_value(to: Seq<char>) -> Json {
    match json_text_value(to) {
        Some(j) => j,
        None => Json::Str(to),
    }
}

/// Whether a field that holds `current` is rewritten by a rule with `from`.
pub open spec fn rule_matches(current: Json, from: Seq<char>) -> bool {
    from == "*"@ || value_text(current) == Some(from)
}

/// One rule applied to a value: `path` is what is left of the segments.
pub open spec fn apply_rule(
    v: Json,
    path: Seq<Seq<char>>,
    key: Seq<char>,
    from: Seq<char>,
    to: Seq<char>,
) -> Json
    decreases v,
{
    match v {
        Json::Object(es) => {
            if path.len() == 0 {
                let p = key_pos(es, key);
                if 0 <= p < es.len() && rule_matches(es[p].1, from) {
                    Json::Object(es.update(p, (es[p].0, replacement_value(to))))
                } else {
                    v
                }
            } else {
                let p = key_pos(es, path[0]);
                if 0 <= p < es.len() {
                    Json::Object(
                        es.update(p, (es[p].0, apply_rule(es[p].1, path.drop_first(), key, from, to))),
                    )
                } else {
                    v
                }
            }
        },
        Json::Array(items) => Json::Array(
            Seq::new(
                items.len(),
                |i: int|
                    if 0 <= i < items.len() {
                        apply_rule(items[i], path, key, from, to)
                    } else {
                        Json::Null
                    },
            ),
        ),
        _ => v,
    }
}

/// The segments and the key that a rule's path names, where it is of the form
/// `segments:key`; an empty segment part names no segment.
pub open spec fn rule_target(path: Seq<char>) -> Option<(Seq<Seq<char>>, Seq<char>)> {
    let parts = split_char(path, ':');
    if parts.len() != 2 {
        None
    } else {
        Some(
            (
                if parts[0].len() == 0 {
                    Seq::<Seq<char>>::empty()
                } else {
                    split_char(parts[0], '.')
                },
                parts[1],
            ),
        )
    }
}

/// One rule applied to a document; a rule whose path is not of the form
/// `segments:key` changes nothing.
pub open spec fn apply_one(v: Json, rule: ReplaceRule) -> Json {
    match rule_target(rule.path@) {
        Some(t) => apply_rule(v, t.0, t.1, rule.from@, rule.to@),
        None => v,
    }
}

/// The rules applied to a document one after another, in order.
pub open spec fn apply_rules(v: Json, rules: Seq<ReplaceRule>) -> Json
    decreases rules.len(),
{
    if rules.len() == 0 {
        v
    } else {
        apply_one(apply_rules(v, rules.drop_last()), rules.last())
    }
}

/// What `serde_yaml::from_str::<serde_json::Value>` reads from a YAML text, in
/// the library's model, or its error's message.
pub uninterp spec fn yaml_document(text: Seq<char>) -> Result<Json, Seq<char>>;

/// What `serde_yaml::to_string` writes for a value, in the library's model, or
/// its error's message.
pub uninterp spec fn yaml_text(v: Json) -> Result<Seq<char>, Seq<char>>;

/// Reads a YAML text into a JSON value with `serde_yaml::from_str`.
///
/// Trusted: the result is `yaml_document` of the text, a function of the text
/// alone; nothing more about YAML is stated.
#[verifier::external_body]
fn serde_yaml_from_str(text: &str) -> (res: Result<JsonValue, String>)
    ensures
        match res {
            Ok(v) => yaml_document(text@) == Ok::<Json, Seq<char>>(v@),
            Err(e) => yaml_document(text@) == Err::<Json, Seq<char>>(e@),
        },
{
    match serde_yaml::from_str::<serde_json::Value>(text) {
        Ok(v) => Ok(value_from_serde(v)),
        Err(e) => Err(e.to_string()),
    }
}

/// Writes a JSON value as YAML with `serde_yaml::to_string`.
///
/// Trusted: the result is `yaml_text` of the value, a function of the value
/// alone; nothing more about YAML is stated.
#[verifier::external_body]
fn serde_yaml_to_string(v: &JsonValue) -> (res: Result<String, String>)
    ensures
        match res {
            Ok(y) => yaml_text(v@) == Ok::<Seq<char>, Seq<char>>(y@),
            Err(e) => yaml_text(v@) == Err::<Seq<char>, Seq<char>>(e@),
        },
{
    match value_to_serde(v) {
        Ok(x) => serde_yaml::to_string(&x).map_err(|e| e.to_string()),
        Err(e) => Err(e),
    }
}

/// Whether `current` is rewritten by a rule with `from`.
fn field_matches(current: &JsonValue, from: &Vec<char>) -> (res: bool)
    ensures
        res == rule_matches(current@, from@),
{
    let star = chars_of("*");
    if chars_eq(from, &star) {
        return true;
    }
    match current {
        JsonValue::Str(s) => {
            let t = chars_of(s.as_str());
            chars_eq(&t, from)
        },
        _ => match serde_json_to_string(current) {
            Some(t) => {
                let tc = chars_of(t.as_str());
                chars_eq(&tc, from)
            },
            None => false,
        },
    }
}

/// The value a field is rewritten to.
fn replacement(to: &str) -> (res: JsonValue)
    ensures
        res@ == replacement_value(to@),
{
    match serde_json_from_str(to) {
        Some(v) => v,
        None => JsonValue::Str(owned(to)),
    }
}

/// Applies one rule below `value`; `depth` segments of `path` are behind.
fn apply_replace_rule(
    value: JsonValue,
    path: &Vec<Vec<char>>,
    depth: usize,
    key: &Vec<char>,
    from: &Vec<char>,
    to: &str,
) -> (res: JsonValue)
    requires
        depth <= path.len(),
    ensures
        res@ == apply_rule(value@, views(path@).skip(depth as int), key@, from@, to@),
    decreases value@,
{
    let ghost v0 = value@;
    let ghost rest = views(path@).skip(depth as int);
    match value {
        JsonValue::Object(es) => {
            let mut es = es;
            proof {
                lemma_object_view(es);
            }
            let ghost ev = entries_view(es@);
            assert(v0 == Json::Object(ev));
            if depth == path.len() {
                assert(rest.len() == 0);
                match find_key(&es, key) {
                    None => JsonValue::Object(es),
                    Some(i) => {
                        if field_matches(&es[i].1, from) {
                            let (k, _old) = es.remove(i);
                            es.insert(i, (k, replacement(to)));
                            proof {
                                lemma_object_view(es);
                                assert(entries_view(es@) =~= ev.update(
                                    i as int,
                                    (ev[i as int].0, replacement_value(to@)),
                                ));
                            }
                            JsonValue::Object(es)
                        } else {
                            JsonValue::Object(es)
                        }
                    },
                }
            } else {
                assert(rest[0] == path@[depth as int]@);
                match find_key(&es, &path[depth]) {
                    None => JsonValue::Object(es),
                    Some(i) => {
                        let (k, child) = es.remove(i);
                        assert(child@ == ev[i as int].1);
                        assert(decreases_to!(v0 => child@)) by {
                            assert(decreases_to!(v0 => ev));
                            assert(decreases_to!(ev => ev[i as int]));
                        }
                        let next = apply_replace_rule(child, path, depth + 1, key, from, to);
                        assert(views(path@).skip(depth + 1) =~= rest.drop_first());
                        es.insert(i, (k, next));
                        proof {
                            lemma_object_view(es);
                            assert(entries_view(es@) =~= ev.update(
                                i as int,
                                (
                                    ev[i as int].0,
                                    apply_rule(ev[i as int].1, rest.drop_first(), key@, from@, to@),
                                ),
                            ));
                        }
                        JsonValue::Object(es)
                    },
                }
            }
        },
        JsonValue::Array(items) => {
            let mut items = items;
            proof {
                lemma_array_view(items);
            }
            let ghost orig = items@;
            let ghost iv = Seq::new(orig.len(), |i: int| orig[i]@);
            assert(v0 == Json::Array(iv));
            let mut out: Vec<JsonValue> = Vec::new();
            let mut k: usize = 0;
            let n = items.len();
            #[verifier::loop_isolation(false)]
            while k < n
                invariant
                    n == orig.len(),
                    k <= n,
                    items@ == orig.skip(k as int),
                    out.len() == k,
                    depth <= path.len(),
                    iv == Seq::new(orig.len(), |i: int| orig[i]@),
                    v0 == Json::Array(iv),
                    rest == views(path@).skip(depth as int),
                    forall|j: int|
                        0 <= j < k ==> #[trigger] out@[j]@ == apply_rule(
                            orig[j]@,
                            rest,
                            key@,
                            from@,
                            to@,
                        ),
                decreases n - k,
            {
                let item = items.remove(0);
                assert(item == orig[k as int]);
                assert(orig.skip(k as int).remove(0) =~= orig.skip(k + 1));
                assert(decreases_to!(v0 => item@)) by {
                    assert(v0->Array_0 == iv);
                    assert(decreases_to!(v0 => v0->Array_0));
                    assert(iv[k as int] == item@);
                    assert(decreases_to!(iv => iv[k as int]));
                }
                let r = apply_replace_rule(item, path, depth, key, from, to);
                out.push(r);
                k = k + 1;
            }
            proof {
                lemma_array_view(out);
            }
            let res = JsonValue::Array(out);
            proof {
                let target = apply_rule(v0, rest, key@, from@, to@);
                assert(target->Array_0 =~= res@->Array_0);
            }
            res
        },
        other => other,
    }
}

/// The segments and the key of a rule's path, where it has the form
/// `segments:key`.
fn parse_rule_target(path: &str) -> (res: Option<(Vec<Vec<char>>, Vec<char>)>)
    ensures
        match res {
            Some(t) => rule_target(path@) == Some((views(t.0@), t.1@)),
            None => rule_target(path@) is None,
        },
{
    let p = chars_of(path);
    let parts = chars_split(&p, ':');
    if parts.len() != 2 {
        return None;
    }
    assert(views(parts@)[0] == parts@[0]@);
    assert(views(parts@)[1] == parts@[1]@);
    let segs = if parts[0].len() == 0 {
        let e: Vec<Vec<char>> = Vec::new();
        assert(views(e@) =~= Seq::<Seq<char>>::empty());
        e
    } else {
        chars_split(&parts[0], '.')
    };
    let key = string_of(&parts[1]);
    let key_chars = chars_of(key.as_str());
    Some((segs, key_chars))
}

/// Whether a rule's path has the form `segments:key`; a rule whose path does
/// not is passed over.
pub fn is_valid_rule_path(path: &str) -> (res: bool)
    ensures
        res == (rule_target(path@) is Some),
{
    parse_rule_target(path).is_some()
}

/// Applies one rule to a document.
fn apply_rule_to(value: JsonValue, rule: &ReplaceRule) -> (res: JsonValue)
    ensures
        res@ == apply_one(value@, *rule),
{
    match parse_rule_target(rule.path.as_str()) {
        None => value,
        Some(t) => {
            let from = chars_of(rule.from.as_str());
            assert(views(t.0@).skip(0) =~= views(t.0@));
            apply_replace_rule(value, &t.0, 0, &t.1, &from, rule.to.as_str())
        },
    }
}

/// The outcome of rewriting a YAML DSL document with rules.
pub open spec fn replaced_yaml(yaml: Seq<char>, rules: Seq<ReplaceRule>) -> Result<
    Seq<char>,
    Seq<char>,
> {
    if rules.len() == 0 {
        Ok(yaml)
    } else {
        match yaml_document(yaml) {
            Err(e) => Err("Failed to parse YAML to JSON value: "@ + e),
            Ok(v) => match yaml_text(apply_rules(v, rules)) {
                Err(e) => Err("Failed to serialize JSON value back to YAML: "@ + e),
                Ok(y) => Ok(
                    replace_all(y, "comparison_operator: ="@, "comparison_operator: '='"@),
                ),
            },
        }
    }
}

/// Rewrites a YAML DSL document with `rules`, in order: the document is read
/// as a JSON value, every rule is applied, the value is written back as YAML,
/// and a bare `=` after `comparison_operator:` is quoted so that the YAML
/// stays readable by PyYAML. Without rules the document is returned as it is.
pub fn replace_yaml_content(yaml_content: &str, rules: &Vec<ReplaceRule>) -> (res: Result<
    String,
    String,
>)
    ensures
        match res {
            Ok(s) => replaced_yaml(yaml_content@, rules@) == Ok::<Seq<char>, Seq<char>>(s@),
            Err(e) => replaced_yaml(yaml_content@, rules@) == Err::<Seq<char>, Seq<char>>(e@),
        },
{
    if rules.len() == 0 {
        return Ok(owned(yaml_content));
    }
    let mut value = match serde_yaml_from_str(yaml_content) {
        Ok(v) => v,
        Err(e) => {
            let mut m = chars_of("Failed to parse YAML to JSON value: ");
            let ec = chars_of(e.as_str());
            crate::text::append_chars(&mut m, &ec);
            return Err(string_of(&m));
        },
    };
    let ghost v0 = value@;
    let mut i: usize = 0;
    while i < rules.len()
        invariant
            i <= rules.len(),
            value@ == apply_rules(v0, rules@.take(i as int)),
        decreases rules.len() - i,
    {
        assert(rules@.take(i + 1).drop_last() =~= rules@.take(i as int));
        value = apply_rule_to(value, &rules[i]);
        i = i + 1;
    }
    assert(rules@.take(rules.len() as int) =~= rules@);
    match serde_yaml_to_string(&value) {
        Err(e) => {
            let mut m = chars_of("Failed to serialize JSON value back to YAML: ");
            let ec = chars_of(e.as_str());
            crate::text::append_chars(&mut m, &ec);
            Err(string_of(&m))
        },
        Ok(y) => {
            let yc = chars_of(y.as_str());
            let pat = chars_of("comparison_operator: =");
            let rep = chars_of("comparison_operator: '='");
            proof {
                reveal_strlit("comparison_operator: =");
            }
            let out = chars_replace_all(&yc, &pat, &rep);
            Ok(string_of(&out))
        },
    }
}

// ---------------------------------------------------------------------------
// Laws
// ---------------------------------------------------------------------------

/// Without rules a document comes back exactly as it was given.
pub proof fn law_no_rules_no_change(yaml: Seq<char>)
    ensures
        replaced_yaml(yaml, Seq::<ReplaceRule>::empty()) == Ok::<Seq<char>, Seq<char>>(yaml),
{
}

/// A rule whose path is not of the form `segments:key` leaves a document as it
/// was.
pub proof fn law_malformed_rule_no_change(v: Json, rule: ReplaceRule)
    requires
        rule_target(rule.path@) is None,
    ensures
        apply_one(v, rule) == v,
{
}

/// A field is compared with a rule's `from` by its text: a string by its own
/// characters, and any other value (a boolean, a number, null, an array or an
/// object) by the compact JSON text `serde_json` prints for it, so that the
/// boolean `false` is matched by `from` `false`. `*` matches every field.
pub proof fn law_field_compared_by_text(current: Json, from: Seq<char>)
    ensures
        !(current is Str) ==> value_text(current) == json_compact_text(current),
        current matches Json::Str(s) ==> value_text(current) == Some(s),
        rule_matches(current, from) <==> (from == "*"@ || match current {
            Json::Str(s) => s == from,
            _ => json_compact_text(current) == Some(from),
        }),
{
}

/// At the end of its path, a rule rewrites the first field named `key` of an
/// object exactly where `from` is `*` or the field's text equals `from`: the
/// field then holds `to` read as JSON (so `true` or `42` keep their type), or
/// the string `to` where it is not JSON, and every other entry is untouched.
/// Where the field does not match, the object stays as it is.
pub proof fn law_rule_rewrites_matching_field(
    es: Seq<(Seq<char>, Json)>,
    key: Seq<char>,
    from: Seq<char>,
    to: Seq<char>,
    p: int,
)
    requires
        crate::json::first_key(es, key, p),
    ensures
        ({
            let cur = es[p].1;
            let hit = from == "*"@ || match cur {
                Json::Str(s) => s == from,
                _ => json_compact_text(cur) == Some(from),
            };
            let new_value = match json_text_value(to) {
                Some(j) => j,
                None => Json::Str(to),
            };
            let out = apply_rule(Json::Object(es), Seq::<Seq<char>>::empty(), key, from, to);
            &&& hit ==> out == Json::Object(es.update(p, (key, new_value)))
            &&& !hit ==> out == Json::Object(es)
        }),
{
    let c = choose|c: int| #[trigger] crate::json::first_key(es, key, c);
    crate::json::lemma_first_key_unique(es, key, c, p);
    assert(key_pos(es, key) == p);
    law_field_compared_by_text(es[p].1, from);
}

/// Rules are applied one after another: applying a list of rules and then
/// another is applying the two lists joined, in that order.
pub proof fn law_rules_apply_in_order(v: Json, first: Seq<ReplaceRule>, then: Seq<ReplaceRule>)
    ensures
        apply_rules(apply_rules(v, first), then) == apply_rules(v, first + then),
    decreases then.len(),
{
    if then.len() == 0 {
        assert(first + then =~= first);
    } else {
        law_rules_apply_in_order(v, first, then.drop_last());
        assert((first + then).drop_last() =~= first + then.drop_last());
        assert((first + then).last() == then.last());
    }
}

/// Two entry lists with the same keys in the same places.
pub open spec fn same_keys(a: Seq<(Seq<char>, Json)>, b: Seq<(Seq<char>, Json)>) -> bool {
    a.len() == b.len() && forall|i: int| 0 <= i < a.len() ==> #[trigger] a[i].0 == b[i].0
}

/// The first entry with a key is found at the same place in lists with the
/// same keys.
pub proof fn lemma_key_pos_same_keys(
    a: Seq<(Seq<char>, Json)>,
    b: Seq<(Seq<char>, Json)>,
    key: Seq<char>,
)
    requires
        same_keys(a, b),
    ensures
        key_pos(a, key) == key_pos(b, key),
{
    assert forall|i: int| crate::json::first_key(a, key, i) == crate::json::first_key(b, key, i) by {
        if 0 <= i < a.len() {
            assert(a[i].0 == b[i].0);
            assert forall|j: int| 0 <= j < i implies a[j].0 == b[j].0 by {}
        }
    }
    if exists|i: int| #[trigger] crate::json::first_key(a, key, i) {
        let i = choose|i: int| #[trigger] crate::json::first_key(a, key, i);
        let j = choose|j: int| #[trigger] crate::json::first_key(b, key, j);
        assert(crate::json::first_key(b, key, i));
        crate::json::lemma_first_key_unique(b, key, i, j);
    }
}

/// A rule never adds or removes a field: an object keeps its keys in their
/// places, an array its length, and any other value stays as it is.
pub proof fn law_rule_keeps_shape(
    v: Json,
    path: Seq<Seq<char>>,
    key: Seq<char>,
    from: Seq<char>,
    to: Seq<char>,
)
    ensures
        match v {
            Json::Object(es) => apply_rule(v, path, key, from, to) matches Json::Object(es2)
                && same_keys(es, es2),
            Json::Array(items) => apply_rule(v, path, key, from, to) matches Json::Array(items2)
                && items2.len() == items.len(),
            _ => apply_rule(v, path, key, from, to) == v,
        },
{
}

/// A rule with the wildcard `*` applied twice does what it does once: the
/// fields it reaches hold the replacement value after the first time.
pub proof fn law_wildcard_rule_idempotent(
    v: Json,
    path: Seq<Seq<char>>,
    key: Seq<char>,
    to: Seq<char>,
)
    ensures
        apply_rule(apply_rule(v, path, key, "*"@, to), path, key, "*"@, to) == apply_rule(
            v,
            path,
            key,
            "*"@,
            to,
        ),
    decreases v,
{
    let once = apply_rule(v, path, key, "*"@, to);
    law_rule_keeps_shape(v, path, key, "*"@, to);
    match v {
        Json::Object(es) => {
            let es2 = once->Object_0;
            if path.len() == 0 {
                lemma_key_pos_same_keys(es, es2, key);
                let p = key_pos(es, key);
                if 0 <= p < es.len() {
                    assert(es2 == es.update(p, (es[p].0, replacement_value(to))));
                    assert(es2.update(p, (es2[p].0, replacement_value(to))) =~= es2);
                }
            } else {
                lemma_key_pos_same_keys(es, es2, path[0]);
                let p = key_pos(es, path[0]);
                if 0 <= p < es.len() {
                    let c = es[p].1;
                    law_wildcard_rule_idempotent(c, path.drop_first(), key, to);
                    assert(es2[p].1 == apply_rule(c, path.drop_first(), key, "*"@, to));
                    let twice = apply_rule(once, path, key, "*"@, to);
                    assert(twice->Object_0 =~= es2);
                }
            }
        },
        Json::Array(items) => {
            let items2 = once->Array_0;
            let twice = apply_rule(once, path, key, "*"@, to);
            assert forall|i: int| 0 <= i < items.len() implies #[trigger] twice->Array_0[i]
                == items2[i] by {
                law_wildcard_rule_idempotent(items[i], path, key, to);
            }
            assert(twice->Array_0 =~= items2);
        },
        _ => {},
    }
}

} // verus!
