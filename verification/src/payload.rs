//! JSON request payloads and the Android fixes applied to a Gemini
//! `v1internal` request: dropping the `googleSearch` tool and stamping the
//! Antigravity client metadata.
use vstd::prelude::*;
use crate::fingerprint::{FingerprintConfig, spec_ag_version};

verus! {

/// A JSON value. Numbers are kept in their textual form; object members in
/// the order given, keys unique.
pub enum JsonValue {
    Null,
    Bool(bool),
    Number(String),
    Str(String),
    Array(Vec<JsonValue>),
    Object(Vec<(String, JsonValue)>),
}

/// The mathematical form of a JSON value.
pub enum JsonView {
    Null,
    Bool(bool),
    Number(Seq<char>),
    Str(Seq<char>),
    Array(Seq<JsonView>),
    Object(Seq<(Seq<char>, JsonView)>),
}

impl JsonValue {
    /// The mathematical form of this value.
    pub open spec fn view(&self) -> JsonView
        decreases self,
    {
        match self {
            JsonValue::Null => JsonView::Null,
            JsonValue::Bool(b) => JsonView::Bool(*b),
            JsonValue::Number(n) => JsonView::Number(n@),
            JsonValue::Str(s) => JsonView::Str(s@),
            JsonValue::Array(items) => JsonView::Array(view_items(items@)),
            JsonValue::Object(fields) => JsonView::Object(view_fields(fields@)),
        }
    }
}

/// The mathematical forms of array items.
pub open spec fn view_items(items: Seq<JsonValue>) -> Seq<JsonView>
    decreases items,
{
    if items.len() == 0 {
        seq![]
    } else {
        view_items(items.subrange(0, items.len() - 1)).push(items[items.len() - 1].view())
    }
}

/// The mathematical forms of object members.
pub open spec fn view_fields(fields: Seq<(String, JsonValue)>) -> Seq<(Seq<char>, JsonView)>
    decreases fields,
{
    if fields.len() == 0 {
        seq![]
    } else {
        view_fields(fields.subrange(0, fields.len() - 1)).push(
            (fields[fields.len() - 1].0@, fields[fields.len() - 1].1.view()),
        )
    }
}


proof fn lemma_view_items(items: Seq<JsonValue>)
    ensures
        view_items(items).len() == items.len(),
        forall|i: int| 0 <= i < items.len() ==> #[trigger] view_items(items)[i] == items[i].view(),
    decreases items.len(),
{
    if items.len() > 0 {
        let d = items.subrange(0, items.len() - 1);
        lemma_view_items(d);
        assert forall|i: int| 0 <= i < items.len() implies #[trigger] view_items(items)[i]
            == items[i].view() by {
            if i < items.len() - 1 {
                assert(d[i] == items[i]);
            }
        }
    }
}

proof fn lemma_view_fields(fields: Seq<(String, JsonValue)>)
    ensures
        view_fields(fields).len() == fields.len(),
        forall|i: int|
            0 <= i < fields.len() ==> #[trigger] view_fields(fields)[i] == (
                fields[i].0@,
                fields[i].1.view(),
            ),
    decreases fields.len(),
{
    if fields.len() > 0 {
        let d = fields.subrange(0, fields.len() - 1);
        lemma_view_fields(d);
        assert forall|i: int| 0 <= i < fields.len() implies #[trigger] view_fields(fields)[i] == (
            fields[i].0@,
            fields[i].1.view(),
        ) by {
            if i < fields.len() - 1 {
                assert(d[i] == fields[i]);
            }
        }
    }
}

/// Position of the first member named `key`, or -1.
pub open spec fn member_index(fields: Seq<(Seq<char>, JsonView)>, key: Seq<char>) -> int
    decreases fields.len(),
{
    if fields.len() == 0 {
        -1
    } else {
        let i = member_index(fields.drop_last(), key);
        if i >= 0 {
            i
        } else if fields.last().0 == key {
            fields.len() - 1
        } else {
            -1
        }
    }
}

proof fn lemma_member_index(fields: Seq<(Seq<char>, JsonView)>, key: Seq<char>)
    ensures
        -1 <= member_index(fields, key) < fields.len(),
        member_index(fields, key) >= 0 ==> fields[member_index(fields, key)].0 == key,
        forall|k: int|
            0 <= k < fields.len() && (member_index(fields, key) < 0 || k < member_index(
                fields,
                key,
            )) ==> #[trigger] fields[k].0 != key,
    decreases fields.len(),
{
    if fields.len() > 0 {
        let d = fields.drop_last();
        lemma_member_index(d, key);
        assert forall|k: int|
            0 <= k < fields.len() && (member_index(fields, key) < 0 || k < member_index(
                fields,
                key,
            )) implies #[trigger] fields[k].0 != key by {
            if k < fields.len() - 1 {
                assert(d[k] == fields[k]);
            }
        }
    }
}

/// The value of member `key` of an object, if there is one (`None` for
/// values that are not objects).
pub open spec fn json_get(v: JsonView, key: Seq<char>) -> Option<JsonView> {
    match v {
        JsonView::Object(fields) => if member_index(fields, key) >= 0 {
            Some(fields[member_index(fields, key)].1)
        } else {
            None
        },
        _ => None,
    }
}

/// The members with `key` set to `val`: replaced in place if present, else
/// appended.
pub open spec fn json_set(fields: Seq<(Seq<char>, JsonView)>, key: Seq<char>, val: JsonView) -> Seq<
    (Seq<char>, JsonView),
> {
    if member_index(fields, key) >= 0 {
        fields.update(member_index(fields, key), (key, val))
    } else {
        fields.push((key, val))
    }
}

/// Position of the first member named `key`.
pub fn member_position(fields: &Vec<(String, JsonValue)>, key: &str) -> (r: Option<usize>)
    ensures
        ({
            let i = member_index(view_fields(fields@), key@);
            match r {
                Some(p) => p == i,
                None => i == -1,
            }
        }),
{
    proof {
        lemma_view_fields(fields@);
        lemma_member_index(view_fields(fields@), key@);
    }
    let k = key.to_owned();
    for i in 0..fields.len()
        invariant
            k@ == key@,
            forall|j: int| 0 <= j < i ==> #[trigger] fields@[j].0@ != key@,
    {
        if fields[i].0 == k {
            proof {
                lemma_view_fields(fields@);
                lemma_member_index(view_fields(fields@), key@);
                let vf = view_fields(fields@);
                let m = member_index(vf, key@);
                assert(vf[i as int].0 == key@);
                if m < 0 || m > i {
                    assert(vf[i as int].0 != key@);
                }
                if 0 <= m < i {
                    assert(vf[m].0 == fields@[m].0@);
                }
            }
            return Some(i);
        }
    }
    proof {
        let vf = view_fields(fields@);
        let m = member_index(vf, key@);
        if m >= 0 {
            assert(vf[m].0 == fields@[m].0@);
        }
    }
    None
}

/// Sets member `key` to `val` (see `json_set`).
pub fn set_member(fields: &mut Vec<(String, JsonValue)>, key: &str, val: JsonValue)
    ensures
        view_fields(final(fields)@) == json_set(view_fields(old(fields)@), key@, val.view()),
{
    let ghost f0 = view_fields(fields@);
    proof {
        lemma_view_fields(fields@);
        lemma_member_index(f0, key@);
    }
    match member_position(fields, key) {
        Some(p) => {
            fields.set(p, (key.to_owned(), val));
        },
        None => {
            fields.push((key.to_owned(), val));
        },
    }
    proof {
        lemma_view_fields(fields@);
        assert(view_fields(fields@) =~= json_set(f0, key@, val.view()));
    }
}


/// A tool entry naming the `googleSearch` tool.
pub open spec fn spec_is_google_search_tool(t: JsonView) -> bool {
    json_get(t, "name"@) == Some(JsonView::Str("googleSearch"@))
}

/// The tool list without `googleSearch` entries.
pub open spec fn spec_without_google_search(items: Seq<JsonView>) -> Seq<JsonView> {
    items.filter(|t: JsonView| !spec_is_google_search_tool(t))
}

/// The metadata members with the Antigravity client identity set.
pub open spec fn spec_stamp_metadata(fields: Seq<(Seq<char>, JsonView)>, version: Seq<char>) -> Seq<
    (Seq<char>, JsonView),
> {
    json_set(
        json_set(
            json_set(
                json_set(fields, "ide_type"@, JsonView::Number("9"@)),
                "ide_version"@,
                JsonView::Str(version),
            ),
            "ide_name"@,
            JsonView::Str("antigravity"@),
        ),
        "platform"@,
        JsonView::Str("linux/aarch64"@),
    )
}

/// For a `v1internal` request, its `tools` array without `googleSearch`
/// (which the endpoint answers with 400).
pub open spec fn spec_drop_search_tool(p: JsonView) -> JsonView {
    match p {
        JsonView::Object(f) => if json_get(p, "protocol_version"@) == Some(
            JsonView::Str("v1internal"@),
        ) {
            match json_get(p, "tools"@) {
                Some(JsonView::Array(items)) => JsonView::Object(
                    json_set(f, "tools"@, JsonView::Array(spec_without_google_search(items))),
                ),
                _ => p,
            }
        } else {
            p
        },
        _ => p,
    }
}

/// The payload with client metadata stamped: into an existing `metadata`
/// object, or as a new `metadata` object when there is none; a `metadata`
/// member that is not an object, and a payload that is not an object, stay
/// as they are.
pub open spec fn spec_stamp_client_metadata(p: JsonView, version: Seq<char>) -> JsonView {
    match p {
        JsonView::Object(f) => match json_get(p, "metadata"@) {
            Some(JsonView::Object(mf)) => JsonView::Object(
                json_set(f, "metadata"@, JsonView::Object(spec_stamp_metadata(mf, version))),
            ),
            Some(_) => p,
            None => JsonView::Object(
                json_set(f, "metadata"@, JsonView::Object(spec_stamp_metadata(seq![], version))),
            ),
        },
        _ => p,
    }
}

/// The Android fixes of a request payload with Antigravity version `version`.
pub open spec fn spec_android_stealth_fixes(p: JsonView, version: Seq<char>) -> JsonView {
    spec_stamp_client_metadata(spec_drop_search_tool(p), version)
}

/// The value of member `key`, if present.
pub fn member_value<'a>(fields: &'a Vec<(String, JsonValue)>, key: &str) -> (r: Option<&'a JsonValue>)
    ensures
        match r {
            Some(v) => json_get(JsonView::Object(view_fields(fields@)), key@) == Some(v.view()),
            None => json_get(JsonView::Object(view_fields(fields@)), key@) is None,
        },
{
    proof {
        lemma_view_fields(fields@);
        lemma_member_index(view_fields(fields@), key@);
    }
    match member_position(fields, key) {
        Some(p) => Some(&fields[p].1),
        None => None,
    }
}

/// Whether the value is the string `s`.
fn is_str(v: &JsonValue, s: &str) -> (r: bool)
    ensures
        r == (v.view() == JsonView::Str(s@)),
{
    match v {
        JsonValue::Str(x) => *x == s.to_owned(),
        _ => false,
    }
}

/// Whether a tool entry names the `googleSearch` tool.
pub fn is_google_search_tool(t: &JsonValue) -> (r: bool)
    ensures
        r == spec_is_google_search_tool(t.view()),
        r == !names_other_than_google_search(t.view()),
{
    match t {
        JsonValue::Object(fields) => match member_value(fields, "name") {
            Some(n) => is_str(n, "googleSearch"),
            None => false,
        },
        _ => false,
    }
}

/// Removes the `googleSearch` entries of a tool list.
pub fn without_google_search(items: Vec<JsonValue>) -> (r: Vec<JsonValue>)
    ensures
        view_items(r@) == spec_without_google_search(view_items(items@)),
        view_items(r@) == view_items(items@).filter(|t: JsonView| names_other_than_google_search(t)),
{
    let ghost all = items@;
    let ghost pred = |t: JsonView| !spec_is_google_search_tool(t);
    let mut rest = items;
    let total = rest.len();
    let mut out: Vec<JsonValue> = Vec::new();
    let mut k: usize = 0;
    proof {
        lemma_view_items(all);
        assert(view_items(all).take(0) =~= Seq::<JsonView>::empty());
        assert(view_items(out@) =~= Seq::<JsonView>::empty());
        assert(Seq::<JsonView>::empty().filter(pred) =~= Seq::<JsonView>::empty());
        assert(rest@ =~= all.skip(0));
    }
    while rest.len() > 0
        invariant
            k <= all.len(),
            all.len() == total,
            rest@ == all.skip(k as int),
            pred == (|t: JsonView| !spec_is_google_search_tool(t)),
            view_items(out@) == view_items(all).take(k as int).filter(pred),
        decreases rest@.len(),
    {
        proof {
            lemma_view_items(all);
            lemma_view_items(out@);
        }
        let t = rest.remove(0);
        let ghost vt = t.view();
        assert(t == all[k as int]);
        assert(view_items(all)[k as int] == vt);
        assert(view_items(all).take(k + 1) =~= view_items(all).take(k as int).push(vt));
        proof {
            view_items(all).take(k as int).lemma_filter_push(vt, pred);
        }
        let keep = !is_google_search_tool(&t);
        let ghost before = view_items(out@);
        if keep {
            out.push(t);
            proof {
                lemma_view_items(out@);
                assert(view_items(out@) =~= before.push(vt));
            }
        }
        k += 1;
        assert(rest@ =~= all.skip(k as int));
    }
    proof {
        lemma_view_items(all);
        assert(view_items(all).take(all.len() as int) =~= view_items(all));
        assert(pred =~= (|t: JsonView| names_other_than_google_search(t)));
    }
    out
}

/// Sets the Antigravity client identity in metadata members.
pub fn stamp_metadata(fields: &mut Vec<(String, JsonValue)>, ag_version: &str)
    ensures
        view_fields(final(fields)@) == spec_stamp_metadata(view_fields(old(fields)@), ag_version@),
{
    set_member(fields, "ide_type", JsonValue::Number(String::from_str("9")));
    set_member(fields, "ide_version", JsonValue::Str(ag_version.to_owned()));
    set_member(fields, "ide_name", JsonValue::Str(String::from_str("antigravity")));
    set_member(fields, "platform", JsonValue::Str(String::from_str("linux/aarch64")));
}


proof fn lemma_replace_member(
    fields: Seq<(String, JsonValue)>,
    pos: int,
    key: String,
    val: JsonValue,
)
    requires
        0 <= pos < fields.len(),
        key@ == fields[pos].0@,
    ensures
        view_fields(fields.remove(pos).insert(pos, (key, val))) == view_fields(fields).update(
            pos,
            (key@, val.view()),
        ),
{
    let nf = fields.remove(pos).insert(pos, (key, val));
    lemma_view_fields(fields);
    lemma_view_fields(nf);
    assert(view_fields(nf) =~= view_fields(fields).update(pos, (key@, val.view())));
}

fn is_array(v: &JsonValue) -> (r: bool)
    ensures
        r == (v.view() is Array),
{
    match v {
        JsonValue::Array(_) => true,
        _ => false,
    }
}

fn is_object(v: &JsonValue) -> (r: bool)
    ensures
        r == (v.view() is Object),
{
    match v {
        JsonValue::Object(_) => true,
        _ => false,
    }
}

/// Drops `googleSearch` from the `tools` of a `v1internal` request object.
fn drop_search_tool(fields: &mut Vec<(String, JsonValue)>)
    ensures
        JsonView::Object(view_fields(final(fields)@)) == spec_drop_search_tool(
            JsonView::Object(view_fields(old(fields)@)),
        ),
{
    let ghost f0 = view_fields(fields@);
    proof {
        lemma_view_fields(fields@);
        lemma_member_index(f0, "tools"@);
    }
    let is_v1 = match member_value(fields, "protocol_version") {
        Some(v) => is_str(v, "v1internal"),
        None => false,
    };
    if !is_v1 {
        return;
    }
    let pos = match member_position(fields, "tools") {
        Some(p) => p,
        None => {
            return;
        },
    };
    if !is_array(&fields[pos].1) {
        return;
    }
    let ghost fs = fields@;
    let (k, val) = fields.remove(pos);
    match val {
        JsonValue::Array(items) => {
            let kept = without_google_search(items);
            let nv = JsonValue::Array(kept);
            fields.insert(pos, (k, nv));
            proof {
                lemma_replace_member(fs, pos as int, k, nv);
                assert(f0[pos as int].0 == "tools"@);
            }
        },
        other => {
            fields.insert(pos, (k, other));
        },
    }
}

/// Stamps client metadata into a request object.
fn stamp_client_metadata(fields: &mut Vec<(String, JsonValue)>, ag_version: &str)
    ensures
        JsonView::Object(view_fields(final(fields)@)) == spec_stamp_client_metadata(
            JsonView::Object(view_fields(old(fields)@)),
            ag_version@,
        ),
{
    let ghost f0 = view_fields(fields@);
    proof {
        lemma_view_fields(fields@);
        lemma_member_index(f0, "metadata"@);
    }
    match member_position(fields, "metadata") {
        Some(pos) => {
            if !is_object(&fields[pos].1) {
                return;
            }
            let ghost fs = fields@;
            let (k, val) = fields.remove(pos);
            match val {
                JsonValue::Object(mf) => {
                    let mut mf = mf;
                    stamp_metadata(&mut mf, ag_version);
                    let nv = JsonValue::Object(mf);
                    fields.insert(pos, (k, nv));
                    proof {
                        lemma_replace_member(fs, pos as int, k, nv);
                        assert(f0[pos as int].0 == "metadata"@);
                    }
                },
                other => {
                    fields.insert(pos, (k, other));
                },
            }
        },
        None => {
            let mut mf: Vec<(String, JsonValue)> = Vec::new();
            stamp_metadata(&mut mf, ag_version);
            assert(view_fields(Seq::<(String, JsonValue)>::empty()) =~= Seq::<
                (Seq<char>, JsonView),
            >::empty());
            set_member(fields, "metadata", JsonValue::Object(mf));
        },
    }
}

/// Applies the Android fixes to a request payload, stamping Antigravity
/// version `ag_version` (see `spec_android_stealth_fixes`).
pub fn apply_android_stealth_fixes_with_version(payload: &mut JsonValue, ag_version: &str)
    ensures
        final(payload).view() == spec_android_stealth_fixes(old(payload).view(), ag_version@),
{
    let mut p = JsonValue::Null;
    std::mem::swap(&mut p, payload);
    match p {
        JsonValue::Object(fields) => {
            let mut fields = fields;
            drop_search_tool(&mut fields);
            stamp_client_metadata(&mut fields, ag_version);
            *payload = JsonValue::Object(fields);
        },
        other => {
            *payload = other;
        },
    }
}

/// Applies the Android fixes to a request payload, stamping the Antigravity
/// version of the current fingerprint; the clock is read on every call (use
/// `apply_android_stealth_fixes_with_version` to stamp a fixed version).
pub fn apply_android_stealth_fixes(payload: &mut JsonValue)
    ensures
        exists|now: u64|
            final(payload).view() == spec_android_stealth_fixes(
                old(payload).view(),
                spec_ag_version(now),
            ),
{
    let fp = FingerprintConfig::current();
    apply_android_stealth_fixes_with_version(payload, fp.antigravity_version.as_str());
}


proof fn lemma_json_set_get(f: Seq<(Seq<char>, JsonView)>, k: Seq<char>, v: JsonView, k2: Seq<char>)
    ensures
        json_get(JsonView::Object(json_set(f, k, v)), k) == Some(v),
        k2 != k ==> json_get(JsonView::Object(json_set(f, k, v)), k2) == json_get(
            JsonView::Object(f),
            k2,
        ),
{
    let g = json_set(f, k, v);
    lemma_member_index(f, k);
    lemma_member_index(g, k);
    lemma_member_index(f, k2);
    lemma_member_index(g, k2);
    let m = member_index(f, k);
    let mg = member_index(g, k);
    if m >= 0 {
        assert(g[m].0 == k);
        if mg < 0 || mg > m {
            assert(g[m].0 != k);
        }
        if 0 <= mg < m {
            assert(f[mg].0 == g[mg].0);
        }
    } else {
        assert(g[f.len() as int].0 == k);
        if mg < 0 || mg > f.len() {
            assert(g[f.len() as int].0 != k);
        }
        if 0 <= mg < f.len() {
            assert(f[mg].0 == g[mg].0);
        }
    }
    if k2 != k {
        let n = member_index(f, k2);
        let ng = member_index(g, k2);
        if n >= 0 {
            assert(g[n].0 == f[n].0);
            if ng < 0 || ng > n {
                assert(g[n].0 != k2);
            }
            if 0 <= ng < n {
                assert(f[ng].0 == g[ng].0);
            }
            assert(g[n] == f[n]);
        } else {
            if ng >= 0 {
                if ng < f.len() {
                    assert(f[ng].0 == g[ng].0);
                } else {
                    assert(g[ng].0 == k);
                }
            }
        }
    }
}

/// The Android fixes do what they are for: a `v1internal` request's tool
/// list keeps no `googleSearch` entry, and an object payload whose
/// `metadata` is absent or an object ends up with the Antigravity client
/// identity (type 9, version `version`, name `antigravity`, platform
/// `linux/aarch64`) in `metadata`.
pub proof fn lemma_fixes_take_effect(p: JsonView, version: Seq<char>)
    requires
        p is Object,
    ensures
        ({
            let r = spec_android_stealth_fixes(p, version);
            (json_get(p, "metadata"@) is None || json_get(p, "metadata"@) matches Some(
                JsonView::Object(_),
            )) ==> (json_get(r, "metadata"@) matches Some(m) && json_get(m, "ide_type"@) == Some(
                JsonView::Number("9"@),
            ) && json_get(m, "ide_version"@) == Some(JsonView::Str(version)) && json_get(
                m,
                "ide_name"@,
            ) == Some(JsonView::Str("antigravity"@)) && json_get(m, "platform"@) == Some(
                JsonView::Str("linux/aarch64"@),
            ))
        }),
        ({
            let r = spec_android_stealth_fixes(p, version);
            (json_get(p, "protocol_version"@) == Some(JsonView::Str("v1internal"@)) && json_get(
                p,
                "tools"@,
            ) matches Some(JsonView::Array(_))) ==> (json_get(r, "tools"@) matches Some(
                JsonView::Array(items),
            ) && forall|i: int| 0 <= i < items.len() ==> !spec_is_google_search_tool(#[trigger] items[i]))
        }),
{
    reveal_strlit("metadata");
    reveal_strlit("tools");
    reveal_strlit("ide_type");
    reveal_strlit("ide_version");
    reveal_strlit("ide_name");
    reveal_strlit("platform");
    lemma_metadata_keys_distinct();
    assert("metadata"@.len() != "tools"@.len());
    let f = p->Object_0;
    let p1 = spec_drop_search_tool(p);
    let f1 = p1->Object_0;
    // The first step touches only `tools`.
    if json_get(p, "protocol_version"@) == Some(JsonView::Str("v1internal"@)) {
        if let Some(JsonView::Array(items)) = json_get(p, "tools"@) {
            lemma_json_set_get(
                f,
                "tools"@,
                JsonView::Array(spec_without_google_search(items)),
                "metadata"@,
            );
        }
    }
    assert(json_get(p1, "metadata"@) == json_get(p, "metadata"@));
    let stamp = |mf: Seq<(Seq<char>, JsonView)>| spec_stamp_metadata(mf, version);
    let r = spec_android_stealth_fixes(p, version);
    match json_get(p1, "metadata"@) {
        Some(JsonView::Object(mf)) => {
            lemma_json_set_get(f1, "metadata"@, JsonView::Object(stamp(mf)), "tools"@);
            lemma_stamp_sets_identity(mf, version);
        },
        Some(_) => {},
        None => {
            lemma_json_set_get(f1, "metadata"@, JsonView::Object(stamp(seq![])), "tools"@);
            lemma_stamp_sets_identity(seq![], version);
        },
    }
    if json_get(p, "protocol_version"@) == Some(JsonView::Str("v1internal"@)) {
        if let Some(JsonView::Array(items)) = json_get(p, "tools"@) {
            lemma_json_set_get(
                f,
                "tools"@,
                JsonView::Array(spec_without_google_search(items)),
                "tools"@,
            );
            let kept = spec_without_google_search(items);
            assert forall|i: int| 0 <= i < kept.len() implies !spec_is_google_search_tool(
                #[trigger] kept[i],
            ) by {
                items.lemma_filter_pred(|t: JsonView| !spec_is_google_search_tool(t), i);
            }
        }
    }
}

/// The tool entries that the fixes keep: an entry stays exactly when its
/// `name` member is not the string `googleSearch`.
pub open spec fn names_other_than_google_search(t: JsonView) -> bool {
    json_get(t, "name"@) != Some(JsonView::Str("googleSearch"@))
}

/// On a `v1internal` request with a tools array, the fixes remove only the
/// entries named `googleSearch`: every other entry (in particular every entry
/// without a `name` member) is kept, in its order.
pub proof fn lemma_fixes_keep_other_tools(p: JsonView, version: Seq<char>, items: Seq<JsonView>)
    requires
        p is Object,
        json_get(p, "protocol_version"@) == Some(JsonView::Str("v1internal"@)),
        json_get(p, "tools"@) == Some(JsonView::Array(items)),
    ensures
        json_get(spec_android_stealth_fixes(p, version), "tools"@) == Some(
            JsonView::Array(items.filter(|t: JsonView| names_other_than_google_search(t))),
        ),
        forall|i: int|
            0 <= i < items.len() && json_get(items[i], "name"@) is None ==> items.filter(
                |t: JsonView| names_other_than_google_search(t),
            ).contains(#[trigger] items[i]),
{
    reveal_strlit("metadata");
    reveal_strlit("tools");
    assert("metadata"@.len() != "tools"@.len());
    let keep = |t: JsonView| names_other_than_google_search(t);
    assert((|t: JsonView| !spec_is_google_search_tool(t)) =~= keep);
    let kept = spec_without_google_search(items);
    assert(kept == items.filter(keep));
    let f = p->Object_0;
    lemma_json_set_get(f, "tools"@, JsonView::Array(kept), "metadata"@);
    let p1 = spec_drop_search_tool(p);
    assert(p1 == JsonView::Object(json_set(f, "tools"@, JsonView::Array(kept))));
    let f1 = p1->Object_0;
    assert(json_get(p1, "tools"@) == Some(JsonView::Array(kept)));
    match json_get(p1, "metadata"@) {
        Some(JsonView::Object(mf)) => {
            lemma_json_set_get(
                f1,
                "metadata"@,
                JsonView::Object(spec_stamp_metadata(mf, version)),
                "tools"@,
            );
        },
        Some(_) => {},
        None => {
            lemma_json_set_get(
                f1,
                "metadata"@,
                JsonView::Object(spec_stamp_metadata(seq![], version)),
                "tools"@,
            );
        },
    }
    assert forall|i: int| 0 <= i < items.len() && json_get(items[i], "name"@) is None implies items.filter(
        keep,
    ).contains(#[trigger] items[i]) by {
        items.lemma_filter_contains(keep, i);
    }
}

proof fn lemma_metadata_keys_distinct()
    ensures
        "ide_type"@ != "ide_version"@,
        "ide_type"@ != "ide_name"@,
        "ide_type"@ != "platform"@,
        "ide_version"@ != "ide_name"@,
        "ide_version"@ != "platform"@,
        "ide_name"@ != "platform"@,
        "ide_version"@ != "ide_type"@,
        "ide_name"@ != "ide_type"@,
        "platform"@ != "ide_type"@,
        "ide_name"@ != "ide_version"@,
        "platform"@ != "ide_version"@,
        "platform"@ != "ide_name"@,
{
    reveal_strlit("ide_type");
    reveal_strlit("ide_version");
    reveal_strlit("ide_name");
    reveal_strlit("platform");
    assert("ide_type"@.len() != "ide_version"@.len());
    assert("ide_type"@[4] != "ide_name"@[4]);
    assert("ide_type"@[0] != "platform"@[0]);
    assert("ide_version"@.len() != "ide_name"@.len());
    assert("ide_version"@.len() != "platform"@.len());
    assert("ide_name"@[0] != "platform"@[0]);
}

proof fn lemma_stamp_sets_identity(mf: Seq<(Seq<char>, JsonView)>, version: Seq<char>)
    ensures
        json_get(JsonView::Object(spec_stamp_metadata(mf, version)), "ide_type"@) == Some(
            JsonView::Number("9"@),
        ),
        json_get(JsonView::Object(spec_stamp_metadata(mf, version)), "ide_version"@) == Some(
            JsonView::Str(version),
        ),
        json_get(JsonView::Object(spec_stamp_metadata(mf, version)), "ide_name"@) == Some(
            JsonView::Str("antigravity"@),
        ),
        json_get(JsonView::Object(spec_stamp_metadata(mf, version)), "platform"@) == Some(
            JsonView::Str("linux/aarch64"@),
        ),
{
    lemma_metadata_keys_distinct();
    let s1 = json_set(mf, "ide_type"@, JsonView::Number("9"@));
    let s2 = json_set(s1, "ide_version"@, JsonView::Str(version));
    let s3 = json_set(s2, "ide_name"@, JsonView::Str("antigravity"@));
    let s4 = json_set(s3, "platform"@, JsonView::Str("linux/aarch64"@));
    lemma_json_set_get(mf, "ide_type"@, JsonView::Number("9"@), "ide_type"@);
    lemma_json_set_get(s1, "ide_version"@, JsonView::Str(version), "ide_type"@);
    lemma_json_set_get(s2, "ide_name"@, JsonView::Str("antigravity"@), "ide_type"@);
    lemma_json_set_get(s3, "platform"@, JsonView::Str("linux/aarch64"@), "ide_type"@);
    lemma_json_set_get(s1, "ide_version"@, JsonView::Str(version), "ide_version"@);
    lemma_json_set_get(s2, "ide_name"@, JsonView::Str("antigravity"@), "ide_version"@);
    lemma_json_set_get(s3, "platform"@, JsonView::Str("linux/aarch64"@), "ide_version"@);
    lemma_json_set_get(s2, "ide_name"@, JsonView::Str("antigravity"@), "ide_name"@);
    lemma_json_set_get(s3, "platform"@, JsonView::Str("linux/aarch64"@), "ide_name"@);
    lemma_json_set_get(s3, "platform"@, JsonView::Str("linux/aarch64"@), "platform"@);
}

} // verus!
