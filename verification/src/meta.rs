//! The metadata resolution engine: placeholder substitution with a fixed
//! order and failure modes, case-insensitive property lookup over the
//! resolved map, and the global policy that forces WASM components into
//! strict sandbox mode.

use vstd::prelude::*;
use vstd::slice::slice_index_get;

use crate::RaprMode;
use crate::component::Component;
use crate::component::Resource;
use crate::component::component_items;
use crate::component::component_name;
use crate::component::component_type;
use crate::json::DynamicValue;
use crate::json::bool_true_value;
use crate::json::canon_of;
use crate::json::canon_text_of;
use crate::json::is_string_value;
use crate::json::json_ok;
use crate::json::parsed_canon;
use crate::json::text_of;
use crate::json::true_canon;
use crate::name_value::NameValuePair;
use crate::text::chars_to_string;
use crate::text::contains_sub;
use crate::text::count_char;
use crate::text::ends_with_sub;
use crate::text::has_sub;
use crate::text::is_suffix_of;
use crate::text::lemma_count_bounds;
use crate::text::match_at;
use crate::text::lemma_count_zero;
use crate::text::lemma_replace_all_absent;
use crate::text::lemma_replace_first_count;
use crate::text::replace_all;
use crate::text::replace_all_chars;
use crate::text::replace_first;
use crate::text::replace_first_chars;
use crate::text::str_to_chars;

verus! {

// ---------------------------------------------------------------------------
// Case folding
// ---------------------------------------------------------------------------

/// The lowercase form of a text, as `str::to_lowercase` produces it.
pub uninterp spec fn lower_of(s: Seq<char>) -> Seq<char>;

/// Relies on `str::to_lowercase`: the Unicode lowercase mapping, a function
/// of the characters alone.
#[verifier::external_body]
fn lowercase(s: &str) -> (r: String)
    ensures
        r@ == lower_of(s@),
{
    s.to_lowercase()
}

// ---------------------------------------------------------------------------
// MetaBase: the resolved property map
// ---------------------------------------------------------------------------

/// The common metadata of a component activation: its name and the resolved
/// properties, keys in declaration order with their declared casing.
#[derive(Debug)]
pub struct MetaBase {
    /// The name of the component being used.
    pub name: String,
    /// The resolved metadata properties.
    pub properties: Vec<(String, String)>,
}

/// The value of the first property whose key case-folds to the same text as
/// `name`; `None` when no key does.
pub open spec fn first_match(props: Seq<(Seq<char>, Seq<char>)>, name: Seq<char>) -> Option<
    Seq<char>,
>
    decreases props.len(),
{
    if props.len() == 0 {
        None
    } else if lower_of(props[0].0) == lower_of(name) {
        Some(props[0].1)
    } else {
        first_match(props.drop_first(), name)
    }
}

/// The value found for the first candidate name that matches some property
/// case-insensitively, candidates tried in the given priority order.
pub open spec fn lookup_value(
    props: Seq<(Seq<char>, Seq<char>)>,
    names: Seq<Seq<char>>,
) -> Option<Seq<char>>
    decreases names.len(),
{
    if names.len() == 0 {
        None
    } else {
        match first_match(props, names[0]) {
            Option::Some(v) => Some(v),
            Option::None => lookup_value(props, names.drop_first()),
        }
    }
}

impl MetaBase {
    /// A metadata base with the given name and properties.
    pub fn new(name: String, properties: Vec<(String, String)>) -> (r: Self)
        ensures
            r.name == name,
            r.properties == properties,
    {
        MetaBase { name, properties }
    }

    /// A metadata base with the given name and no properties.
    pub fn with_name(name: String) -> (r: Self)
        ensures
            r.name == name,
            r.properties@.len() == 0,
    {
        MetaBase { name, properties: Vec::new() }
    }

    /// The value of the first property whose key equals `name` after case
    /// folding; the first property in declaration order wins when several
    /// keys fold alike.
    fn find_first(&self, name: &str) -> (r: Option<String>)
        ensures
            r is Some <==> first_match(self.properties.deep_view(), name@) is Some,
            r matches Some(v) ==> Some(v@) == first_match(self.properties.deep_view(), name@),
    {
        let target = lowercase(name);
        let n = self.properties.len();
        let mut j: usize = 0;
        proof {
            assert(self.properties.deep_view().skip(0) =~~= self.properties.deep_view());
        }
        while j < n
            invariant
                n == self.properties@.len(),
                j <= n,
                target@ == lower_of(name@),
                first_match(self.properties.deep_view(), name@) == first_match(
                    self.properties.deep_view().skip(j as int),
                    name@,
                ),
            decreases n - j,
        {
            let p = slice_index_get(self.properties.as_slice(), j);
            let key_l = lowercase(p.0.as_str());
            let ghost rest = self.properties.deep_view().skip(j as int);
            proof {
                assert(rest[0] == self.properties.deep_view()[j as int]);
            }
            if key_l == target {
                return Some(p.1.clone());
            }
            proof {
                assert(rest.drop_first() =~~= self.properties.deep_view().skip(j + 1));
            }
            j = j + 1;
        }
        proof {
            assert(self.properties.deep_view().skip(n as int) =~~= Seq::<(Seq<char>, Seq<
                char,
            >)>::empty());
        }
        None
    }

    /// The value of a property, candidates tried in the given priority
    /// order, each matched against the keys case-insensitively.
    pub fn get_property(&self, names: &[&str]) -> (r: Option<String>)
        ensures
            r is Some <==> lookup_value(self.properties.deep_view(), names.deep_view()) is Some,
            r matches Some(v) ==> Some(v@) == lookup_value(
                self.properties.deep_view(),
                names.deep_view(),
            ),
    {
        let nn = names.len();
        let mut i: usize = 0;
        proof {
            assert(names.deep_view().skip(0) =~~= names.deep_view());
        }
        while i < nn
            invariant
                nn == names@.len(),
                i <= nn,
                lookup_value(self.properties.deep_view(), names.deep_view()) == lookup_value(
                    self.properties.deep_view(),
                    names.deep_view().skip(i as int),
                ),
            decreases nn - i,
        {
            let name = slice_index_get(names, i);
            let ghost rest = names.deep_view().skip(i as int);
            proof {
                assert(rest[0] == names.deep_view()[i as int]);
            }
            match self.find_first(*name) {
                Some(v) => {
                    return Some(v);
                },
                None => {},
            }
            proof {
                assert(rest.drop_first() =~~= names.deep_view().skip(i + 1));
            }
            i = i + 1;
        }
        proof {
            assert(names.deep_view().skip(nn as int) =~~= Seq::<Seq<char>>::empty());
        }
        None
    }

    /// The value of a single property, matched case-insensitively.
    pub fn get_single_property(&self, name: &str) -> (r: Option<String>)
        ensures
            r is Some <==> lookup_value(self.properties.deep_view(), seq![name@]) is Some,
            r matches Some(v) ==> Some(v@) == lookup_value(
                self.properties.deep_view(),
                seq![name@],
            ),
    {
        let r = self.find_first(name);
        proof {
            let names = seq![name@];
            assert(names[0] == name@);
            assert(names.drop_first() =~~= Seq::<Seq<char>>::empty());
            assert(lookup_value(self.properties.deep_view(), Seq::<Seq<char>>::empty()) is None);
            assert(lookup_value(self.properties.deep_view(), names) == first_match(
                self.properties.deep_view(),
                name@,
            ));
        }
        r
    }
}

impl Clone for MetaBase {
    fn clone(&self) -> (r: Self)
        ensures
            r.name == self.name,
            r.properties.deep_view() == self.properties.deep_view(),
    {
        let mut properties: Vec<(String, String)> = Vec::new();
        let n = self.properties.len();
        let mut i: usize = 0;
        while i < n
            invariant
                n == self.properties@.len(),
                i <= n,
                properties@.len() == i,
                forall|k: int|
                    0 <= k < i ==> (#[trigger] properties@[k]).0@ == self.properties@[k].0@
                        && properties@[k].1@ == self.properties@[k].1@,
            decreases n - i,
        {
            let p = slice_index_get(self.properties.as_slice(), i);
            properties.push((p.0.clone(), p.1.clone()));
            i = i + 1;
        }
        proof {
            assert(properties.deep_view() =~~= self.properties.deep_view());
        }
        MetaBase { name: self.name.clone(), properties }
    }
}

// ---------------------------------------------------------------------------
// Errors, runtime identity
// ---------------------------------------------------------------------------

/// The errors of metadata resolution.
#[derive(Debug)]
pub enum MetaError {
    /// A property refers to `{podName}` but no pod name is configured.
    PodNameNotSet { property_name: String },
}

impl Clone for MetaError {
    fn clone(&self) -> (r: Self)
        ensures
            r == *self,
    {
        match self {
            MetaError::PodNameNotSet { property_name } => (MetaError::PodNameNotSet {
                property_name: property_name.clone(),
            }),
        }
    }
}

/// The options a runtime identity is built from.
#[derive(Debug)]
pub struct Options {
    pub id: String,
    pub pod_name: String,
    pub namespace: String,
    pub strict_sandbox: bool,
    pub mode: RaprMode,
}

/// The runtime identity context: the owning application id, the pod name,
/// the namespace, the global strict-sandbox flag, and the runtime mode.
#[derive(Debug)]
pub struct Meta {
    pub id: String,
    pub pod_name: String,
    pub namespace: String,
    pub strict_sandbox: bool,
    pub mode: RaprMode,
}

impl Clone for Meta {
    fn clone(&self) -> (r: Self)
        ensures
            r == *self,
    {
        Meta {
            id: self.id.clone(),
            pod_name: self.pod_name.clone(),
            namespace: self.namespace.clone(),
            strict_sandbox: self.strict_sandbox,
            mode: self.mode,
        }
    }
}

// ---------------------------------------------------------------------------
// Placeholders
// ---------------------------------------------------------------------------

/// The placeholder replaced by generated identifiers.
pub open spec fn uuid_token() -> Seq<char> {
    "{uuid}"@
}

/// The placeholder replaced by the pod name.
pub open spec fn pod_name_token() -> Seq<char> {
    "{podName}"@
}

/// The placeholder replaced by the namespace-qualified application id.
pub open spec fn namespace_token() -> Seq<char> {
    "{namespace}"@
}

/// The placeholder replaced by the application id.
pub open spec fn app_id_token() -> Seq<char> {
    "{appID}"@
}

/// A character of a generated identifier: lowercase hex or a hyphen.
pub open spec fn is_uuid_char(c: char) -> bool {
    ('0' <= c && c <= '9') || ('a' <= c && c <= 'f') || c == '-'
}

/// The text of a generated identifier: 36 characters, each lowercase hex or
/// a hyphen.
pub open spec fn is_uuid_text(s: Seq<char>) -> bool {
    s.len() == 36 && forall|i: int| 0 <= i < s.len() ==> is_uuid_char(#[trigger] s[i])
}

/// Every entry is the text of a generated identifier.
pub open spec fn all_uuid_texts(ids: Seq<Seq<char>>) -> bool {
    forall|i: int| 0 <= i < ids.len() ==> is_uuid_text(#[trigger] ids[i])
}

/// The value after the identifier substitutions, one occurrence at a time,
/// left to right, each occurrence with its own identifier.
pub open spec fn subst_ids(s: Seq<char>, ids: Seq<Seq<char>>) -> Seq<char>
    decreases ids.len(),
{
    if ids.len() == 0 {
        s
    } else {
        subst_ids(replace_first(s, uuid_token(), ids[0]), ids.drop_first())
    }
}

proof fn lemma_subst_ids_push(s: Seq<char>, ids: Seq<Seq<char>>, x: Seq<char>)
    ensures
        subst_ids(s, ids.push(x)) == replace_first(subst_ids(s, ids), uuid_token(), x),
    decreases ids.len(),
{
    if ids.len() == 0 {
        assert(ids.push(x)[0] == x);
        assert(ids.push(x).drop_first() =~~= Seq::<Seq<char>>::empty());
        assert(subst_ids(s, ids) == s);
        assert(subst_ids(replace_first(s, uuid_token(), x), Seq::<Seq<char>>::empty())
            == replace_first(s, uuid_token(), x));
    } else {
        assert(ids.push(x)[0] == ids[0]);
        assert(ids.push(x).drop_first() =~~= ids.drop_first().push(x));
        lemma_subst_ids_push(replace_first(s, uuid_token(), ids[0]), ids.drop_first(), x);
    }
}

/// The composite that replaces the namespace placeholder: the namespace, a
/// dot, and the application id, so that component instance names stay unique
/// per application within a namespace.
pub open spec fn namespace_rep(m: Meta) -> Seq<char> {
    m.namespace@ + "."@ + m.id@
}

/// The context substitutions, in their fixed order: the pod name, then the
/// namespace composite, then, last, the application id.
pub open spec fn apply_context(s: Seq<char>, m: Meta) -> Seq<char> {
    replace_all(
        replace_all(replace_all(s, pod_name_token(), m.pod_name@), namespace_token(), namespace_rep(m)),
        app_id_token(),
        m.id@,
    )
}

/// Resolution of one entry value can yield this output: for some generated
/// identifiers, the identifier substitutions remove every identifier token,
/// the pod name is not missing while its token occurs, and the context
/// substitutions produce the output.
pub open spec fn resolves_to(m: Meta, val: Seq<char>, out: Seq<char>) -> bool {
    exists|ids: Seq<Seq<char>>|
        #[trigger] all_uuid_texts(ids) && {
            let base = subst_ids(val, ids);
            &&& !has_sub(base, uuid_token())
            &&& !(m.pod_name@.len() == 0 && has_sub(base, pod_name_token()))
            &&& out == apply_context(base, m)
        }
}

/// Resolution of one entry value fails: the pod name is empty and, after
/// some identifier substitutions that remove every identifier token, the
/// pod name token occurs.
pub open spec fn resolution_fails(m: Meta, val: Seq<char>) -> bool {
    m.pod_name@.len() == 0 && exists|ids: Seq<Seq<char>>|
        #[trigger] all_uuid_texts(ids) && {
            let base = subst_ids(val, ids);
            !has_sub(base, uuid_token()) && has_sub(base, pod_name_token())
        }
}

/// Identifier substitutions do not change a value without identifier
/// tokens.
proof fn lemma_subst_ids_no_token(s: Seq<char>, ids: Seq<Seq<char>>)
    requires
        !has_sub(s, uuid_token()),
    ensures
        subst_ids(s, ids) == s,
    decreases ids.len(),
{
    if ids.len() > 0 {
        crate::text::lemma_replace_first_absent(s, uuid_token(), ids[0]);
        lemma_subst_ids_no_token(s, ids.drop_first());
    }
}

/// For a value without identifier tokens, resolution is deterministic: it
/// can succeed exactly when the value does not need the unset pod name, and
/// then only with the context substitution of the value itself.
pub proof fn lemma_resolution_deterministic(m: Meta, val: Seq<char>, out: Seq<char>)
    requires
        !has_sub(val, uuid_token()),
    ensures
        resolves_to(m, val, out) <==> (!(m.pod_name@.len() == 0 && has_sub(val, pod_name_token()))
            && out == apply_context(val, m)),
{
    if resolves_to(m, val, out) {
        let ids = choose|ids: Seq<Seq<char>>|
            #[trigger] all_uuid_texts(ids) && {
                let base = subst_ids(val, ids);
                &&& !has_sub(base, uuid_token())
                &&& !(m.pod_name@.len() == 0 && has_sub(base, pod_name_token()))
                &&& out == apply_context(base, m)
            };
        lemma_subst_ids_no_token(val, ids);
    }
    if !(m.pod_name@.len() == 0 && has_sub(val, pod_name_token())) && out == apply_context(
        val,
        m,
    ) {
        let ids = Seq::<Seq<char>>::empty();
        assert(subst_ids(val, ids) == val);
        assert(all_uuid_texts(ids) && {
            let base = subst_ids(val, ids);
            &&& !has_sub(base, uuid_token())
            &&& !(m.pod_name@.len() == 0 && has_sub(base, pod_name_token()))
            &&& out == apply_context(base, m)
        });
    }
}

/// Relies on `uuid::Uuid::new_v4` and its display form: a freshly generated
/// random identifier, printed hyphenated as 36 characters of lowercase hex
/// and hyphens.
#[verifier::external_body]
fn fresh_uuid() -> (r: String)
    ensures
        is_uuid_text(r@),
{
    uuid::Uuid::new_v4().to_string()
}

// ---------------------------------------------------------------------------
// WASM classification
// ---------------------------------------------------------------------------

/// A component type is classified as WASM when it contains `wasm` or ends
/// with `.wasm`.
pub open spec fn is_wasm_type(t: Seq<char>) -> bool {
    has_sub(t, "wasm"@) || is_suffix_of(".wasm"@, t)
}

/// Whether the declared component type is classified as WASM.
pub fn is_wasm_component_type(component_type: &str) -> (r: bool)
    ensures
        r == is_wasm_type(component_type@),
{
    let tc = str_to_chars(component_type);
    let sub = str_to_chars("wasm");
    let suffix = str_to_chars(".wasm");
    contains_sub(tc.as_slice(), sub.as_slice()) || ends_with_sub(tc.as_slice(), suffix.as_slice())
}

/// Whether some entry's value text mentions the namespace placeholder.
pub fn contains_namespace(items: &[NameValuePair]) -> (r: bool)
    ensures
        r == (exists|i: int|
            0 <= i < items@.len() && match (#[trigger] items@[i]).value {
                Option::Some(dv) => has_sub(text_of(dv.raw), namespace_token()),
                Option::None => false,
            }),
{
    let tok = str_to_chars("{namespace}");
    let n = items.len();
    let mut i: usize = 0;
    while i < n
        invariant
            n == items@.len(),
            i <= n,
            tok@ == namespace_token(),
            forall|k: int|
                0 <= k < i ==> match (#[trigger] items@[k]).value {
                    Option::Some(dv) => !has_sub(text_of(dv.raw), namespace_token()),
                    Option::None => true,
                },
        decreases n - i,
    {
        let item = slice_index_get(items, i);
        match &item.value {
            Some(dv) => {
                let t = dv.to_str();
                let tc = str_to_chars(t.as_str());
                if contains_sub(tc.as_slice(), tok.as_slice()) {
                    return true;
                }
            },
            None => {},
        }
        i = i + 1;
    }
    false
}


// ---------------------------------------------------------------------------
// Placeholder resolution of one entry value
// ---------------------------------------------------------------------------

/// The error names this property.
pub open spec fn pod_name_error(e: MetaError, name: Seq<char>) -> bool {
    match e {
        MetaError::PodNameNotSet { property_name } => property_name@ == name,
    }
}

impl Meta {
    /// A runtime identity built from the given options.
    pub fn new(options: Options) -> (r: Self)
        ensures
            r.id == options.id,
            r.pod_name == options.pod_name,
            r.namespace == options.namespace,
            r.strict_sandbox == options.strict_sandbox,
            r.mode == options.mode,
    {
        Meta {
            pod_name: options.pod_name,
            namespace: options.namespace,
            strict_sandbox: options.strict_sandbox,
            id: options.id,
            mode: options.mode,
        }
    }

    /// Substitutes the runtime placeholders into one entry's literal text,
    /// in the fixed order: `{uuid}` occurrences one at a time, each with a
    /// fresh random identifier; then `{podName}`, failing with
    /// `PodNameNotSet` when that token occurs and no pod name is set; then
    /// `{namespace}` as the namespace-qualified application id; then, last,
    /// `{appID}`.  Unknown placeholders are left untouched.
    pub fn resolve_value(&self, property_name: &str, val: &str) -> (r: Result<String, MetaError>)
        ensures
            r matches Ok(out) ==> resolves_to(*self, val@, out@),
            r matches Err(e) ==> resolution_fails(*self, val@) && pod_name_error(
                e,
                property_name@,
            ),
    {
        let uuid_tok = str_to_chars("{uuid}");
        proof {
            reveal_strlit("{uuid}");
        }
        let mut cur = str_to_chars(val);
        let ghost mut ids: Seq<Seq<char>> = Seq::empty();
        proof {
            assert(subst_ids(val@, ids) == val@);
        }
        while contains_sub(cur.as_slice(), uuid_tok.as_slice())
            invariant
                uuid_tok@ == uuid_token(),
                uuid_tok@.len() == 6,
                all_uuid_texts(ids),
                cur@ == subst_ids(val@, ids),
            decreases count_char(cur@, '{'),
        {
            let id = fresh_uuid();
            let id_chars = str_to_chars(id.as_str());
            let ghost prev = cur@;
            cur = replace_first_chars(cur.as_slice(), uuid_tok.as_slice(), id_chars.as_slice());
            proof {
                lemma_subst_ids_push(val@, ids, id_chars@);
                ids = ids.push(id_chars@);
                assert(all_uuid_texts(ids)) by {
                    assert(forall|k: int|
                        0 <= k < ids.len() - 1 ==> #[trigger] ids[k] == ids.drop_last()[k]);
                }
                reveal_strlit("{uuid}");
                assert(uuid_token()[0] == '{');
                lemma_count_bounds(uuid_token(), '{');
                assert(forall|t: int| 0 <= t < id_chars@.len() ==> #[trigger] id_chars@[t] != '{');
                lemma_count_zero(id_chars@, '{');
                lemma_replace_first_count(prev, uuid_token(), id_chars@, '{');
                lemma_count_bounds(cur@, '{');
            }
        }
        let pod_tok = str_to_chars("{podName}");
        proof {
            reveal_strlit("{podName}");
        }
        let ghost base = cur@;
        let has_pod = contains_sub(cur.as_slice(), pod_tok.as_slice());
        if has_pod && self.pod_name.as_str().is_empty() {
            proof {
                assert(all_uuid_texts(ids) && {
                    let b = subst_ids(val@, ids);
                    !has_sub(b, uuid_token()) && has_sub(b, pod_name_token())
                });
            }
            return Err(MetaError::PodNameNotSet { property_name: property_name.to_owned() });
        }
        let after_pod = if has_pod {
            let pod_chars = str_to_chars(self.pod_name.as_str());
            replace_all_chars(cur.as_slice(), pod_tok.as_slice(), pod_chars.as_slice())
        } else {
            proof {
                lemma_replace_all_absent(base, pod_name_token(), self.pod_name@);
            }
            cur
        };
        let ns_tok = str_to_chars("{namespace}");
        proof {
            reveal_strlit("{namespace}");
        }
        let mut ns = self.namespace.clone();
        ns.append(".");
        ns.append(self.id.as_str());
        let ns_chars = str_to_chars(ns.as_str());
        let after_ns = replace_all_chars(after_pod.as_slice(), ns_tok.as_slice(), ns_chars.as_slice());
        let app_tok = str_to_chars("{appID}");
        proof {
            reveal_strlit("{appID}");
        }
        let app_chars = str_to_chars(self.id.as_str());
        let after_app = replace_all_chars(after_ns.as_slice(), app_tok.as_slice(), app_chars.as_slice());
        let out = chars_to_string(after_app.as_slice());
        proof {
            assert(ns@ == namespace_rep(*self));
            assert(out@ == apply_context(base, *self));
            assert(all_uuid_texts(ids) && {
                let b = subst_ids(val@, ids);
                &&& !has_sub(b, uuid_token())
                &&& !(self.pod_name@.len() == 0 && has_sub(b, pod_name_token()))
                &&& out@ == apply_context(b, *self)
            });
        }
        Ok(out)
    }
}

// ---------------------------------------------------------------------------
// Sandbox policy
// ---------------------------------------------------------------------------

/// The metadata key that forces strict sandbox mode.
pub open spec fn sandbox_key() -> Seq<char> {
    "strictSandbox"@
}

/// The entry name case-folds to the strict sandbox key.
pub open spec fn folds_to_sandbox_key(name: Seq<char>) -> bool {
    lower_of(name) == lower_of(sandbox_key())
}

/// The forced entry's value: the JSON true value.  It is not a string, its
/// canonical serialization is the text `true` and parses back to it, and
/// its text projection is `true`.
pub open spec fn forced_true_value(v: Option<DynamicValue>) -> bool {
    match v {
        Option::Some(dv) => {
            &&& !is_string_value(dv.raw)
            &&& canon_of(dv.raw) == true_canon()
            &&& json_ok(canon_of(dv.raw))
            &&& parsed_canon(canon_of(dv.raw)) == canon_of(dv.raw)
            &&& canon_text_of(dv.raw) == "true"@
        },
        Option::None => false,
    }
}

/// Some entry name folds to the sandbox key.
pub open spec fn has_sandbox_entry(items: Seq<NameValuePair>) -> bool {
    exists|i: int| 0 <= i < items.len() && folds_to_sandbox_key((#[trigger] items[i]).name@)
}

/// Enforcement overwrote entry `i`: it is the first entry whose name folds
/// to the sandbox key, it keeps its name and references, its value is
/// forced to true, and every other entry is unchanged.
pub open spec fn sandbox_overwrote_at(
    old_items: Seq<NameValuePair>,
    new_items: Seq<NameValuePair>,
    i: int,
) -> bool {
    &&& 0 <= i < old_items.len()
    &&& folds_to_sandbox_key(old_items[i].name@)
    &&& forall|k: int| 0 <= k < i ==> !folds_to_sandbox_key((#[trigger] old_items[k]).name@)
    &&& new_items.len() == old_items.len()
    &&& forall|k: int|
        0 <= k < old_items.len() && k != i ==> #[trigger] new_items[k] == old_items[k]
    &&& new_items[i].name == old_items[i].name
    &&& new_items[i].secret_key_ref == old_items[i].secret_key_ref
    &&& new_items[i].env_ref == old_items[i].env_ref
    &&& forced_true_value(new_items[i].value)
}

/// Enforcement appended a fresh true entry under the sandbox key.
pub open spec fn sandbox_appended(
    old_items: Seq<NameValuePair>,
    new_items: Seq<NameValuePair>,
) -> bool {
    &&& new_items.len() == old_items.len() + 1
    &&& new_items.take(old_items.len() as int) == old_items
    &&& new_items.last().name@ == sandbox_key()
    &&& new_items.last().secret_key_ref is None
    &&& new_items.last().env_ref is None
    &&& forced_true_value(new_items.last().value)
}

/// The entries after sandbox enforcement: the first entry whose name folds
/// to the sandbox key, if there is one, keeps its name and references and
/// has its value overwritten with true; otherwise a fresh true entry under
/// the sandbox key is appended.
pub open spec fn sandbox_applied(
    old_items: Seq<NameValuePair>,
    new_items: Seq<NameValuePair>,
) -> bool {
    if has_sandbox_entry(old_items) {
        exists|i: int| #[trigger] sandbox_overwrote_at(old_items, new_items, i)
    } else {
        sandbox_appended(old_items, new_items)
    }
}

/// The component after sandbox enforcement: the spec's entries have the
/// policy applied and everything else is unchanged.
pub open spec fn sandbox_outcome(oldc: Component, newc: Component) -> bool {
    match (oldc.spec, newc.spec) {
        (Option::Some(s), Option::Some(s2)) => {
            &&& s2.cmpt_type == s.cmpt_type
            &&& s2.version == s.version
            &&& s2.ignore_errors == s.ignore_errors
            &&& s2.init_timeout == s.init_timeout
            &&& sandbox_applied(s.metadata@, s2.metadata@)
            &&& newc.type_meta == oldc.type_meta
            &&& newc.metadata == oldc.metadata
            &&& newc.auth == oldc.auth
            &&& newc.scoped == oldc.scoped
        },
        _ => false,
    }
}

impl Meta {
    /// Adds the global WASM strict sandbox configuration to the component
    /// metadata.  When the global flag is unset the component is left
    /// untouched; when it is set, the first entry named `strictSandbox`
    /// (case-insensitively) is overwritten with a true value, or such an
    /// entry is appended, so that the user's declaration never wins.  Note
    /// one corner of the declared mechanics: should several entries carry
    /// names that fold to the key, only the first is overwritten, and the
    /// later duplicate then wins at map build under last-write-wins.
    pub fn add_wasm_strict_sandbox(&self, comp: &mut Component)
        ensures
            !self.strict_sandbox ==> *final(comp) == *old(comp),
            (self.strict_sandbox && old(comp).spec is None) ==> *final(comp) == *old(comp),
            (self.strict_sandbox && old(comp).spec is Some) ==> sandbox_outcome(
                *old(comp),
                *final(comp),
            ),
    {
        if !self.strict_sandbox {
            return;
        }
        let spec_opt = comp.spec.take();
        match spec_opt {
            Some(mut sp) => {
                let key_l = lowercase("strictSandbox");
                let ghost orig_items = sp.metadata@;
                let n = sp.metadata.len();
                let mut found = false;
                let mut idx: usize = 0;
                let mut i: usize = 0;
                while i < n && !found
                    invariant
                        n == sp.metadata@.len(),
                        sp.metadata@ == orig_items,
                        i <= n,
                        key_l@ == lower_of(sandbox_key()),
                        !found ==> forall|k: int|
                            0 <= k < i ==> !folds_to_sandbox_key(
                                (#[trigger] orig_items[k]).name@,
                            ),
                        found ==> idx < n && folds_to_sandbox_key(orig_items[idx as int].name@)
                            && forall|k: int|
                            0 <= k < idx ==> !folds_to_sandbox_key(
                                (#[trigger] orig_items[k]).name@,
                            ),
                    decreases n - i,
                {
                    let name_l = lowercase(sp.metadata[i].name.as_str());
                    if name_l == key_l {
                        found = true;
                        idx = i;
                    }
                    i = i + 1;
                }
                if found {
                    let mut forced = sp.metadata[idx].clone();
                    forced.value = Some(DynamicValue { raw: bool_true_value() });
                    sp.metadata[idx] = forced;
                    proof {
                        let new_items = sp.metadata@;
                        assert(folds_to_sandbox_key(orig_items[idx as int].name@));
                        assert(forall|k: int|
                            0 <= k < orig_items.len() && k != idx ==> #[trigger] new_items[k]
                                == orig_items[k]);
                        assert(sandbox_overwrote_at(orig_items, new_items, idx as int));
                        assert(sandbox_applied(orig_items, new_items));
                    }
                } else {
                    let pair = NameValuePair {
                        name: "strictSandbox".to_owned(),
                        value: Some(DynamicValue { raw: bool_true_value() }),
                        secret_key_ref: None,
                        env_ref: None,
                    };
                    sp.metadata.push(pair);
                    proof {
                        let new_items = sp.metadata@;
                        assert(!has_sandbox_entry(orig_items));
                        assert(new_items.take(orig_items.len() as int) =~= orig_items);
                        assert(sandbox_appended(orig_items, new_items));
                        assert(sandbox_applied(orig_items, new_items));
                    }
                }
                comp.spec = Some(sp);
            },
            None => {},
        }
    }
}

// ---------------------------------------------------------------------------
// Building the resolved property map
// ---------------------------------------------------------------------------

/// The literal text projection of one entry: the value's text, or empty for
/// an entry backed only by a secret or environment reference, whose actual
/// resolution is delegated to outside collaborators.
pub open spec fn entry_text(p: NameValuePair) -> Seq<char> {
    match p.value {
        Option::Some(dv) => text_of(dv.raw),
        Option::None => Seq::empty(),
    }
}

/// A property list after inserting one resolved entry: an entry under an
/// existing key overwrites that key's value in place, and a new key is
/// appended.
pub open spec fn insert_prop(
    props: Seq<(Seq<char>, Seq<char>)>,
    k: Seq<char>,
    v: Seq<char>,
) -> Seq<(Seq<char>, Seq<char>)>
    decreases props.len(),
{
    if props.len() == 0 {
        seq![(k, v)]
    } else if props[0].0 == k {
        seq![(k, v)] + props.drop_first()
    } else {
        seq![props[0]] + insert_prop(props.drop_first(), k, v)
    }
}

proof fn lemma_insert_prop_update(s: Seq<(Seq<char>, Seq<char>)>, k: Seq<char>, v: Seq<char>, i: int)
    requires
        0 <= i < s.len(),
        s[i].0 == k,
        forall|t: int| 0 <= t < i ==> (#[trigger] s[t]).0 != k,
    ensures
        insert_prop(s, k, v) == s.update(i, (k, v)),
    decreases i,
{
    if i == 0 {
        assert(seq![(k, v)] + s.drop_first() =~= s.update(0, (k, v)));
    } else {
        lemma_insert_prop_update(s.drop_first(), k, v, i - 1);
        assert(s.drop_first().update(i - 1, (k, v)) =~= s.update(i, (k, v)).drop_first());
        assert(seq![s[0]] + s.update(i, (k, v)).drop_first() =~= s.update(i, (k, v)));
    }
}

proof fn lemma_insert_prop_append(s: Seq<(Seq<char>, Seq<char>)>, k: Seq<char>, v: Seq<char>)
    requires
        forall|t: int| 0 <= t < s.len() ==> (#[trigger] s[t]).0 != k,
    ensures
        insert_prop(s, k, v) == s.push((k, v)),
    decreases s.len(),
{
    if s.len() == 0 {
        assert(seq![(k, v)] =~= s.push((k, v)));
    } else {
        lemma_insert_prop_append(s.drop_first(), k, v);
        assert(seq![s[0]] + s.drop_first().push((k, v)) =~= s.push((k, v)));
    }
}

/// The property list built from the entries' names and their resolved
/// texts, inserted in declaration order, a later entry under the same name
/// silently overwriting the earlier one.
pub open spec fn props_built(items: Seq<NameValuePair>, outs: Seq<Seq<char>>) -> Seq<
    (Seq<char>, Seq<char>),
>
    decreases items.len(),
{
    if items.len() == 0 {
        Seq::empty()
    } else {
        insert_prop(
            props_built(items.drop_last(), outs.drop_last()),
            items.last().name@,
            outs.last(),
        )
    }
}

/// Inserts one resolved property into the list; an entry under an existing
/// name silently overwrites the earlier value.
fn insert_property(props: &mut Vec<(String, String)>, key: String, value: String)
    ensures
        final(props).deep_view() == insert_prop(old(props).deep_view(), key@, value@),
{
    let n = props.len();
    let mut i: usize = 0;
    while i < n
        invariant
            n == props@.len(),
            *props == *old(props),
            i <= n,
            forall|t: int| 0 <= t < i ==> (#[trigger] old(props).deep_view()[t]).0 != key@,
        decreases n - i,
    {
        if slice_index_get(props.as_slice(), i).0 == key {
            let ghost olddv = props.deep_view();
            props[i] = (key, value);
            proof {
                lemma_insert_prop_update(olddv, key@, value@, i as int);
                assert(props.deep_view() =~~= olddv.update(i as int, (key@, value@)));
            }
            return;
        }
        i = i + 1;
    }
    let ghost olddv = props.deep_view();
    props.push((key, value));
    proof {
        lemma_insert_prop_append(olddv, key@, value@);
        assert(props.deep_view() =~~= olddv.push((key@, value@)));
    }
}

/// Some generated identifiers make this entry resolve.
pub open spec fn entry_resolvable(m: Meta, p: NameValuePair) -> bool {
    exists|o: Seq<char>| #[trigger] resolves_to(m, entry_text(p), o)
}

/// Conversion failed at entry `k`: its text needs the unset pod name, the
/// error names it, and every earlier entry had resolved.
pub open spec fn conversion_failed_at(
    m: Meta,
    items: Seq<NameValuePair>,
    e: MetaError,
    k: int,
) -> bool {
    &&& 0 <= k < items.len()
    &&& resolution_fails(m, entry_text(items[k]))
    &&& pod_name_error(e, items[k].name@)
    &&& forall|t: int| 0 <= t < k ==> entry_resolvable(m, #[trigger] items[t])
}

/// Conversion failed at some entry.
pub open spec fn conversion_failed(m: Meta, items: Seq<NameValuePair>, e: MetaError) -> bool {
    exists|k: int| #[trigger] conversion_failed_at(m, items, e, k)
}

/// The resolved texts `outs` witness a successful conversion of `items`
/// into the property list `props`.
pub open spec fn conversion_ok(
    m: Meta,
    items: Seq<NameValuePair>,
    outs: Seq<Seq<char>>,
    props: Seq<(Seq<char>, Seq<char>)>,
) -> bool {
    &&& outs.len() == items.len()
    &&& forall|k: int|
        0 <= k < items.len() ==> resolves_to(m, entry_text(#[trigger] items[k]), outs[k])
    &&& props == props_built(items, outs)
}

/// Some resolved texts witness a successful conversion of the entries into
/// this property list.
pub open spec fn conversion_succeeded(
    m: Meta,
    items: Seq<NameValuePair>,
    props: Seq<(Seq<char>, Seq<char>)>,
) -> bool {
    exists|outs: Seq<Seq<char>>| #[trigger] conversion_ok(m, items, outs, props)
}

impl Meta {
    /// Resolves every entry into the property map: each entry's literal
    /// text, its placeholders substituted, keyed by the declared name with
    /// last-write-wins on duplicate names; the first entry that needs the
    /// unset pod name aborts the whole conversion.
    pub fn convert_items_to_props(&self, items: &[NameValuePair]) -> (r: Result<
        Vec<(String, String)>,
        MetaError,
    >)
        ensures
            r matches Ok(props) ==> conversion_succeeded(*self, items@, props.deep_view()),
            r matches Err(e) ==> conversion_failed(*self, items@, e),
    {
        let mut props: Vec<(String, String)> = Vec::new();
        let ghost mut outs: Seq<Seq<char>> = Seq::empty();
        let n = items.len();
        let mut i: usize = 0;
        proof {
            assert(props.deep_view() =~~= props_built(items@.take(0), outs));
        }
        while i < n
            invariant
                n == items@.len(),
                i <= n,
                outs.len() == i,
                forall|k: int|
                    0 <= k < i ==> resolves_to(*self, entry_text(#[trigger] items@[k]), outs[k]),
                props.deep_view() == props_built(items@.take(i as int), outs),
            decreases n - i,
        {
            let item = slice_index_get(items, i);
            let val = match &item.value {
                Some(dv) => dv.to_str(),
                None => String::new(),
            };
            match self.resolve_value(item.name.as_str(), val.as_str()) {
                Ok(out) => {
                    let ghost outs_before = outs;
                    proof {
                        outs = outs.push(out@);
                    }
                    insert_property(&mut props, item.name.clone(), out);
                    i = i + 1;
                    proof {
                        let s = items@.take(i as int);
                        assert(s.drop_last() =~= items@.take(i - 1));
                        assert(outs.drop_last() =~= outs_before);
                        assert(s.last() == items@[i - 1]);
                        assert(props.deep_view() == props_built(s, outs));
                    }
                },
                Err(e) => {
                    proof {
                        assert(*item == items@[i as int]);
                        assert(val@ == entry_text(items@[i as int]));
                        assert forall|t: int| 0 <= t < i implies entry_resolvable(
                            *self,
                            #[trigger] items@[t],
                        ) by {
                            assert(resolves_to(*self, entry_text(items@[t]), outs[t]));
                        }
                        assert(conversion_failed_at(*self, items@, e, i as int));
                    }
                    return Err(e);
                },
            }
        }
        proof {
            assert(items@.take(n as int) =~= items@);
            assert(conversion_ok(*self, items@, outs, props.deep_view()));
            assert(conversion_succeeded(*self, items@, props.deep_view()));
        }
        Ok(props)
    }
}

// ---------------------------------------------------------------------------
// The full activation: sandbox enforcement, then resolution
// ---------------------------------------------------------------------------

/// The entries that resolution works on: the declared entries, with the
/// sandbox policy applied first when the component type is classified as
/// WASM, the global flag is set and the component has a spec.
pub open spec fn enforcement_of(m: Meta, c: Component, eff: Seq<NameValuePair>) -> bool {
    if is_wasm_type(component_type(c)) && m.strict_sandbox && c.spec is Some {
        sandbox_applied(component_items(c), eff)
    } else {
        eff == component_items(c)
    }
}

/// A successful activation: the metadata base carries the component's name,
/// and for the entries after enforcement some resolved texts witness the
/// conversion into the property list.
pub open spec fn activation_ok(
    m: Meta,
    comp: Component,
    mb_name: Seq<char>,
    props: Seq<(Seq<char>, Seq<char>)>,
) -> bool {
    &&& mb_name == component_name(comp)
    &&& exists|eff: Seq<NameValuePair>|
        #[trigger] enforcement_of(m, comp, eff) && conversion_succeeded(m, eff, props)
}

/// A failed activation: conversion of the entries after enforcement failed.
pub open spec fn activation_failed(m: Meta, comp: Component, e: MetaError) -> bool {
    exists|eff: Seq<NameValuePair>|
        #[trigger] enforcement_of(m, comp, eff) && conversion_failed(m, eff, e)
}

impl Meta {
    /// Resolves one component's declared entries into its base metadata:
    /// the sandbox policy is applied first to WASM-classified components,
    /// every entry's literal text has its placeholders substituted, and the
    /// map keeps declaration order with last-write-wins on duplicate names.
    /// The first entry that needs the unset pod name fails the whole
    /// activation; no partial map is returned.
    pub fn to_base_metadata(&self, comp: Component) -> (r: Result<MetaBase, MetaError>)
        ensures
            r matches Ok(mb) ==> activation_ok(*self, comp, mb.name@, mb.properties.deep_view()),
            r matches Err(e) ==> activation_failed(*self, comp, e),
    {
        let mut c = comp;
        let is_wasm = match &c.spec {
            Some(sp) => is_wasm_component_type(sp.cmpt_type.as_str()),
            None => is_wasm_component_type(""),
        };
        proof {
            reveal_strlit("");
            assert(""@ =~= Seq::<char>::empty());
            assert(is_wasm == is_wasm_type(component_type(comp)));
        }
        if is_wasm {
            self.add_wasm_strict_sandbox(&mut c);
        }
        let ghost eff = component_items(c);
        proof {
            assert(enforcement_of(*self, comp, eff));
        }
        let name = c.get_name().to_owned();
        match self.convert_items_to_props(c.name_value_pairs()) {
            Ok(props) => {
                proof {
                    assert(component_name(c) == component_name(comp));
                    assert(activation_ok(
                        *self,
                        comp,
                        name@,
                        props.deep_view(),
                    ));
                }
                Ok(MetaBase { name, properties: props })
            },
            Err(e) => {
                proof {
                    assert(activation_failed(*self, comp, e));
                }
                Err(e)
            },
        }
    }

    /// The secret store to authenticate with: the resource's declared
    /// store, or `kubernetes` when none is declared and the runtime runs in
    /// Kubernetes mode.
    pub fn auth_secret_store_or_default<R: Resource>(&self, resource: &R) -> (r: String)
        ensures
            r@ == if resource.secret_store_spec().len() == 0 && self.mode
                == RaprMode::Kubernetes {
                "kubernetes"@
            } else {
                resource.secret_store_spec()
            },
    {
        let secret_store = resource.get_secret_store();
        if secret_store.as_str().is_empty() {
            match self.mode {
                RaprMode::Kubernetes => "kubernetes".to_owned(),
                _ => secret_store,
            }
        } else {
            secret_store
        }
    }
}



// ---------------------------------------------------------------------------
// Laws: determinism, idempotence, and when failure is forced
// ---------------------------------------------------------------------------

/// The text `true` is too short to hold either placeholder token.
proof fn lemma_true_text_has_no_tokens()
    ensures
        !has_sub("true"@, uuid_token()),
        !has_sub("true"@, pod_name_token()),
{
    reveal_strlit("true");
    reveal_strlit("{uuid}");
    reveal_strlit("{podName}");
    assert forall|i: int| !match_at("true"@, uuid_token(), i) by {}
    assert forall|i: int| !match_at("true"@, pod_name_token(), i) by {}
}

/// Two entries that resolution cannot tell apart: same name, same
/// references, same text projection.
pub open spec fn entry_views_eq(a: NameValuePair, b: NameValuePair) -> bool {
    &&& a.name@ == b.name@
    &&& a.secret_key_ref == b.secret_key_ref
    &&& a.env_ref == b.env_ref
    &&& entry_text(a) == entry_text(b)
}

/// Two entry lists that resolution cannot tell apart, entry by entry.
pub open spec fn same_entry_views(a: Seq<NameValuePair>, b: Seq<NameValuePair>) -> bool {
    a.len() == b.len() && forall|k: int| 0 <= k < a.len() ==> entry_views_eq(#[trigger] a[k], b[k])
}

/// Sandbox enforcement is deterministic in what resolution observes: any
/// two outcomes on the same entries agree on every name, reference and
/// text projection.
pub proof fn lemma_sandbox_applied_determined(
    old_items: Seq<NameValuePair>,
    n1: Seq<NameValuePair>,
    n2: Seq<NameValuePair>,
)
    requires
        sandbox_applied(old_items, n1),
        sandbox_applied(old_items, n2),
    ensures
        same_entry_views(n1, n2),
{
    if has_sandbox_entry(old_items) {
        let i1 = choose|i: int| #[trigger] sandbox_overwrote_at(old_items, n1, i);
        let i2 = choose|i: int| #[trigger] sandbox_overwrote_at(old_items, n2, i);
        assert(sandbox_overwrote_at(old_items, n1, i1));
        assert(sandbox_overwrote_at(old_items, n2, i2));
        assert(i1 == i2) by {
            if i1 < i2 {
                assert(!folds_to_sandbox_key(old_items[i1].name@));
            }
            if i2 < i1 {
                assert(!folds_to_sandbox_key(old_items[i2].name@));
            }
        }
        assert forall|k: int| 0 <= k < n1.len() implies entry_views_eq(n1[k], n2[k]) by {
            if k != i1 {
                assert(n1[k] == old_items[k]);
                assert(n2[k] == old_items[k]);
            } else {
                assert(entry_text(n1[k]) == "true"@);
                assert(entry_text(n2[k]) == "true"@);
            }
        }
    } else {
        let l = old_items.len() as int;
        assert forall|k: int| 0 <= k < n1.len() implies entry_views_eq(n1[k], n2[k]) by {
            if k < l {
                assert(n1.take(l)[k] == n1[k]);
                assert(n2.take(l)[k] == n2[k]);
                assert(n1[k] == old_items[k]);
                assert(n2[k] == old_items[k]);
            } else {
                assert(n1[k] == n1.last());
                assert(n2[k] == n2.last());
                assert(entry_text(n1[k]) == "true"@);
                assert(entry_text(n2[k]) == "true"@);
            }
        }
    }
}

/// Enforcement introduces no identifier tokens: when no entry text holds
/// one, none does afterwards either.
pub proof fn lemma_sandbox_texts_token_free(
    old_items: Seq<NameValuePair>,
    new_items: Seq<NameValuePair>,
)
    requires
        sandbox_applied(old_items, new_items),
        forall|k: int|
            0 <= k < old_items.len() ==> !has_sub(
                entry_text(#[trigger] old_items[k]),
                uuid_token(),
            ),
    ensures
        forall|k: int|
            0 <= k < new_items.len() ==> !has_sub(
                entry_text(#[trigger] new_items[k]),
                uuid_token(),
            ),
{
    lemma_true_text_has_no_tokens();
    if has_sandbox_entry(old_items) {
        let i = choose|i: int| #[trigger] sandbox_overwrote_at(old_items, new_items, i);
        assert(sandbox_overwrote_at(old_items, new_items, i));
        assert forall|k: int|
            0 <= k < new_items.len() implies !has_sub(
                entry_text(new_items[k]),
                uuid_token(),
            ) by {
            if k != i {
                assert(new_items[k] == old_items[k]);
            } else {
                assert(entry_text(new_items[k]) == "true"@);
            }
        }
    } else {
        let l = old_items.len() as int;
        assert forall|k: int|
            0 <= k < new_items.len() implies !has_sub(
                entry_text(new_items[k]),
                uuid_token(),
            ) by {
            if k < l {
                assert(new_items.take(l)[k] == new_items[k]);
                assert(new_items[k] == old_items[k]);
            } else {
                assert(new_items[k] == new_items.last());
                assert(entry_text(new_items[k]) == "true"@);
            }
        }
    }
}

/// Sandbox enforcement is idempotent in what resolution observes: applying
/// the policy to an already-enforced entry list keeps every name,
/// reference and text projection.
pub proof fn lemma_sandbox_idempotent(
    items0: Seq<NameValuePair>,
    items1: Seq<NameValuePair>,
    items2: Seq<NameValuePair>,
)
    requires
        sandbox_applied(items0, items1),
        sandbox_applied(items1, items2),
    ensures
        same_entry_views(items2, items1),
{
    if has_sandbox_entry(items0) {
        let i = choose|i: int| #[trigger] sandbox_overwrote_at(items0, items1, i);
        assert(sandbox_overwrote_at(items0, items1, i));
        assert(folds_to_sandbox_key(items1[i].name@));
        assert(has_sandbox_entry(items1));
        let j = choose|j: int| #[trigger] sandbox_overwrote_at(items1, items2, j);
        assert(sandbox_overwrote_at(items1, items2, j));
        assert(j == i) by {
            if j < i {
                assert(items1[j] == items0[j]);
                assert(!folds_to_sandbox_key(items0[j].name@));
            }
            if i < j {
                assert(!folds_to_sandbox_key(items1[i].name@));
            }
        }
        assert forall|k: int| 0 <= k < items2.len() implies entry_views_eq(
            items2[k],
            items1[k],
        ) by {
            if k != i {
                assert(items2[k] == items1[k]);
            } else {
                assert(entry_text(items2[k]) == "true"@);
                assert(entry_text(items1[k]) == "true"@);
            }
        }
    } else {
        let l = items0.len() as int;
        assert(items1[l] == items1.last());
        assert(folds_to_sandbox_key(items1[l].name@));
        assert(has_sandbox_entry(items1));
        let j = choose|j: int| #[trigger] sandbox_overwrote_at(items1, items2, j);
        assert(sandbox_overwrote_at(items1, items2, j));
        assert(j == l) by {
            if j < l {
                assert(items1.take(l)[j] == items1[j]);
                assert(items1[j] == items0[j]);
                assert(!folds_to_sandbox_key(items0[j].name@));
            }
        }
        assert forall|k: int| 0 <= k < items2.len() implies entry_views_eq(
            items2[k],
            items1[k],
        ) by {
            if k != l {
                assert(items2[k] == items1[k]);
            } else {
                assert(entry_text(items2[k]) == "true"@);
                assert(entry_text(items1[k]) == "true"@);
            }
        }
    }
}

/// For a value text without identifier tokens, failure is pinned: it fails
/// exactly when the pod name is unset and the text mentions its token.
pub proof fn lemma_resolution_fails_iff(m: Meta, val: Seq<char>)
    requires
        !has_sub(val, uuid_token()),
    ensures
        resolution_fails(m, val) <==> (m.pod_name@.len() == 0 && has_sub(val, pod_name_token())),
{
    if resolution_fails(m, val) {
        let ids = choose|ids: Seq<Seq<char>>|
            #[trigger] all_uuid_texts(ids) && {
                let base = subst_ids(val, ids);
                !has_sub(base, uuid_token()) && has_sub(base, pod_name_token())
            };
        lemma_subst_ids_no_token(val, ids);
    }
    if m.pod_name@.len() == 0 && has_sub(val, pod_name_token()) {
        let ids = Seq::<Seq<char>>::empty();
        assert(subst_ids(val, ids) == val);
        assert(all_uuid_texts(ids) && {
            let base = subst_ids(val, ids);
            !has_sub(base, uuid_token()) && has_sub(base, pod_name_token())
        });
    }
}

/// The built property list reads only the entries' names and the resolved
/// texts.
proof fn lemma_props_built_views(
    a: Seq<NameValuePair>,
    b: Seq<NameValuePair>,
    outs: Seq<Seq<char>>,
)
    requires
        same_entry_views(a, b),
    ensures
        props_built(a, outs) == props_built(b, outs),
    decreases a.len(),
{
    if a.len() > 0 {
        assert(same_entry_views(a.drop_last(), b.drop_last())) by {
            assert forall|k: int| 0 <= k < a.len() - 1 implies entry_views_eq(
                a.drop_last()[k],
                b.drop_last()[k],
            ) by {
                assert(a.drop_last()[k] == a[k]);
                assert(b.drop_last()[k] == b[k]);
            }
        }
        lemma_props_built_views(a.drop_last(), b.drop_last(), outs.drop_last());
        assert(a.last() == a[a.len() - 1]);
        assert(b.last() == b[b.len() - 1]);
    }
}

/// Without identifier tokens in any entry text, a successful conversion is
/// a function of the entries' names and texts: any two successful property
/// lists are equal.
pub proof fn lemma_conversion_deterministic(
    m: Meta,
    a: Seq<NameValuePair>,
    b: Seq<NameValuePair>,
    p1: Seq<(Seq<char>, Seq<char>)>,
    p2: Seq<(Seq<char>, Seq<char>)>,
)
    requires
        same_entry_views(a, b),
        forall|k: int| 0 <= k < a.len() ==> !has_sub(entry_text(#[trigger] a[k]), uuid_token()),
        conversion_succeeded(m, a, p1),
        conversion_succeeded(m, b, p2),
    ensures
        p1 == p2,
{
    let outs1 = choose|outs: Seq<Seq<char>>| #[trigger] conversion_ok(m, a, outs, p1);
    let outs2 = choose|outs: Seq<Seq<char>>| #[trigger] conversion_ok(m, b, outs, p2);
    assert(conversion_ok(m, a, outs1, p1));
    assert(conversion_ok(m, b, outs2, p2));
    assert forall|k: int| 0 <= k < a.len() implies outs1[k] == outs2[k] by {
        assert(resolves_to(m, entry_text(a[k]), outs1[k]));
        assert(resolves_to(m, entry_text(b[k]), outs2[k]));
        assert(entry_text(a[k]) == entry_text(b[k]));
        lemma_resolution_deterministic(m, entry_text(a[k]), outs1[k]);
        lemma_resolution_deterministic(m, entry_text(a[k]), outs2[k]);
    }
    assert(outs1 =~= outs2);
    lemma_props_built_views(a, b, outs1);
}

/// A failed conversion of entries whose texts lack identifier tokens can
/// only come from the pod name: it is unset and some entry text mentions
/// its token.
pub proof fn lemma_conversion_failure_needs_pod_token(
    m: Meta,
    items: Seq<NameValuePair>,
    e: MetaError,
)
    requires
        conversion_failed(m, items, e),
        forall|k: int|
            0 <= k < items.len() ==> !has_sub(entry_text(#[trigger] items[k]), uuid_token()),
    ensures
        m.pod_name@.len() == 0,
        exists|k: int|
            0 <= k < items.len() && has_sub(entry_text(#[trigger] items[k]), pod_name_token()),
{
    let k = choose|k: int| #[trigger] conversion_failed_at(m, items, e, k);
    assert(conversion_failed_at(m, items, e, k));
    lemma_resolution_fails_iff(m, entry_text(items[k]));
}

/// An entry whose token-free text mentions the pod-name token cannot
/// resolve under an unset pod name: no successful conversion exists.
pub proof fn lemma_pod_token_forces_failure(
    m: Meta,
    items: Seq<NameValuePair>,
    k: int,
    props: Seq<(Seq<char>, Seq<char>)>,
)
    requires
        m.pod_name@.len() == 0,
        0 <= k < items.len(),
        !has_sub(entry_text(items[k]), uuid_token()),
        has_sub(entry_text(items[k]), pod_name_token()),
    ensures
        !conversion_succeeded(m, items, props),
{
    if conversion_succeeded(m, items, props) {
        let outs = choose|outs: Seq<Seq<char>>| #[trigger] conversion_ok(m, items, outs, props);
        assert(conversion_ok(m, items, outs, props));
        assert(resolves_to(m, entry_text(items[k]), outs[k]));
        lemma_resolution_deterministic(m, entry_text(items[k]), outs[k]);
    }
}

/// Activation is pure: without identifier tokens in any declared entry
/// text, any two successful activations of the same context and component
/// agree on the name and on the whole property map.
pub proof fn lemma_activation_deterministic(
    m: Meta,
    comp: Component,
    n1: Seq<char>,
    p1: Seq<(Seq<char>, Seq<char>)>,
    n2: Seq<char>,
    p2: Seq<(Seq<char>, Seq<char>)>,
)
    requires
        forall|k: int|
            0 <= k < component_items(comp).len() ==> !has_sub(
                entry_text(#[trigger] component_items(comp)[k]),
                uuid_token(),
            ),
        activation_ok(m, comp, n1, p1),
        activation_ok(m, comp, n2, p2),
    ensures
        n1 == n2,
        p1 == p2,
{
    let eff1 = choose|eff: Seq<NameValuePair>|
        #[trigger] enforcement_of(m, comp, eff) && conversion_succeeded(m, eff, p1);
    let eff2 = choose|eff: Seq<NameValuePair>|
        #[trigger] enforcement_of(m, comp, eff) && conversion_succeeded(m, eff, p2);
    assert(enforcement_of(m, comp, eff1) && conversion_succeeded(m, eff1, p1));
    assert(enforcement_of(m, comp, eff2) && conversion_succeeded(m, eff2, p2));
    if is_wasm_type(component_type(comp)) && m.strict_sandbox && comp.spec is Some {
        lemma_sandbox_applied_determined(component_items(comp), eff1, eff2);
        lemma_sandbox_texts_token_free(component_items(comp), eff1);
    } else {
        assert forall|k: int| 0 <= k < eff1.len() implies entry_views_eq(eff1[k], eff2[k]) by {
            assert(eff1[k] == component_items(comp)[k]);
            assert(eff2[k] == component_items(comp)[k]);
        }
        assert(same_entry_views(eff1, eff2));
        assert forall|k: int| 0 <= k < eff1.len() implies !has_sub(
            entry_text(eff1[k]),
            uuid_token(),
        ) by {
            assert(eff1[k] == component_items(comp)[k]);
        }
    }
    lemma_conversion_deterministic(m, eff1, eff2, p1, p2);
}

/// A declared entry that needs the unset pod name forces the activation to
/// fail, provided enforcement does not replace that entry: no successful
/// activation outcome exists.
pub proof fn lemma_activation_failure_forced(
    m: Meta,
    comp: Component,
    k: int,
    n: Seq<char>,
    p: Seq<(Seq<char>, Seq<char>)>,
)
    requires
        m.pod_name@.len() == 0,
        0 <= k < component_items(comp).len(),
        !has_sub(entry_text(component_items(comp)[k]), uuid_token()),
        has_sub(entry_text(component_items(comp)[k]), pod_name_token()),
        (is_wasm_type(component_type(comp)) && m.strict_sandbox && comp.spec is Some)
            ==> !folds_to_sandbox_key(component_items(comp)[k].name@),
    ensures
        !activation_ok(m, comp, n, p),
{
    if activation_ok(m, comp, n, p) {
        let eff = choose|eff: Seq<NameValuePair>|
            #[trigger] enforcement_of(m, comp, eff) && conversion_succeeded(m, eff, p);
        assert(enforcement_of(m, comp, eff) && conversion_succeeded(m, eff, p));
        let items = component_items(comp);
        if is_wasm_type(component_type(comp)) && m.strict_sandbox && comp.spec is Some {
            if has_sandbox_entry(items) {
                let i = choose|i: int| #[trigger] sandbox_overwrote_at(items, eff, i);
                assert(sandbox_overwrote_at(items, eff, i));
                assert(i != k);
                assert(eff[k] == items[k]);
            } else {
                assert(eff.take(items.len() as int)[k] == eff[k]);
                assert(eff[k] == items[k]);
            }
        } else {
            assert(eff == items);
        }
        lemma_pod_token_forces_failure(m, eff, k, p);
    }
}


} // verus!
