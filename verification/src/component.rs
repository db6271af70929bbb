//! The declared component resource: its spec, authentication block, and
//! scopes, together with the small piece of resource-document metadata
//! (names, namespaces, kinds) that this crate reads.  The document itself is
//! parsed and validated outside; here it is plain data.

use vstd::prelude::*;

use crate::name_value::NameValuePair;
use crate::scoped::Scoped;
use crate::utils::component_log_name;
use crate::utils::log_name_text;

verus! {

pub const KIND: &'static str = "Component";

pub const VERSION: &'static str = "v1alpha1";

pub const GROUP_NAME: &'static str = "rapr.io";

/// The kind and API version of a resource document.
pub struct TypeMeta {
    pub kind: String,
    pub api_version: String,
}

impl Clone for TypeMeta {
    fn clone(&self) -> (r: Self)
        ensures
            r.kind == self.kind,
            r.api_version == self.api_version,
    {
        TypeMeta { kind: self.kind.clone(), api_version: self.api_version.clone() }
    }
}

/// The object metadata of a resource document: its name and namespace.
pub struct ObjectMeta {
    pub name: Option<String>,
    pub namespace: Option<String>,
}

impl Clone for ObjectMeta {
    fn clone(&self) -> (r: Self)
        ensures
            r == *self,
    {
        ObjectMeta { name: clone_opt(&self.name), namespace: clone_opt(&self.namespace) }
    }
}

/// The list metadata of a resource list document.
pub struct ListMeta {
    pub resource_version: Option<String>,
}

impl Clone for ListMeta {
    fn clone(&self) -> (r: Self)
        ensures
            r == *self,
    {
        ListMeta { resource_version: clone_opt(&self.resource_version) }
    }
}

/// A clone of an optional string, equal to the original.
fn clone_opt(s: &Option<String>) -> (r: Option<String>)
    ensures
        r == *s,
{
    match s {
        Some(v) => Some(v.clone()),
        None => None,
    }
}

/// The spec of a component.
pub struct ComponentSpec {
    /// The declared component type.
    pub cmpt_type: String,
    pub version: String,
    pub ignore_errors: bool,
    /// The declared configuration entries.
    pub metadata: Vec<NameValuePair>,
    pub init_timeout: Option<String>,
}

/// Two component specs with equal contents.
pub open spec fn same_spec(a: ComponentSpec, b: ComponentSpec) -> bool {
    &&& a.cmpt_type == b.cmpt_type
    &&& a.version == b.version
    &&& a.ignore_errors == b.ignore_errors
    &&& a.metadata@ == b.metadata@
    &&& a.init_timeout == b.init_timeout
}

impl Clone for ComponentSpec {
    fn clone(&self) -> (r: Self)
        ensures
            same_spec(r, *self),
    {
        let mut metadata: Vec<NameValuePair> = Vec::new();
        let mut i: usize = 0;
        let n = self.metadata.len();
        while i < n
            invariant
                n == self.metadata@.len(),
                i <= n,
                metadata@ == self.metadata@.take(i as int),
            decreases n - i,
        {
            metadata.push(self.metadata[i].clone());
            i = i + 1;
            proof {
                assert(metadata@ =~= self.metadata@.take(i as int));
            }
        }
        proof {
            assert(self.metadata@.take(n as int) =~= self.metadata@);
        }
        ComponentSpec {
            cmpt_type: self.cmpt_type.clone(),
            version: self.version.clone(),
            ignore_errors: self.ignore_errors,
            metadata,
            init_timeout: clone_opt(&self.init_timeout),
        }
    }
}

/// Authentication details for a component.
pub struct Auth {
    pub secret_store: String,
}

impl Clone for Auth {
    fn clone(&self) -> (r: Self)
        ensures
            r == *self,
    {
        Auth { secret_store: self.secret_store.clone() }
    }
}

/// A declared component.
pub struct Component {
    pub type_meta: TypeMeta,
    pub metadata: Option<ObjectMeta>,
    pub spec: Option<ComponentSpec>,
    pub auth: Option<Auth>,
    pub scoped: Scoped,
}

/// A list of declared components.
pub struct ComponentList {
    pub type_meta: TypeMeta,
    pub metadata: ListMeta,
    pub items: Vec<Component>,
}

/// The component's name: the object metadata's name, or empty.
pub open spec fn component_name(c: Component) -> Seq<char> {
    match c.metadata {
        Option::Some(m) => match m.name {
            Option::Some(n) => n@,
            Option::None => Seq::empty(),
        },
        Option::None => Seq::empty(),
    }
}

/// The component's namespace: the object metadata's namespace, or empty.
pub open spec fn component_namespace(c: Component) -> Seq<char> {
    match c.metadata {
        Option::Some(m) => match m.namespace {
            Option::Some(n) => n@,
            Option::None => Seq::empty(),
        },
        Option::None => Seq::empty(),
    }
}

/// The component's declared type, or empty without a spec.
pub open spec fn component_type(c: Component) -> Seq<char> {
    match c.spec {
        Option::Some(s) => s.cmpt_type@,
        Option::None => Seq::empty(),
    }
}

/// The component's declared version, or empty without a spec.
pub open spec fn component_version(c: Component) -> Seq<char> {
    match c.spec {
        Option::Some(s) => s.version@,
        Option::None => Seq::empty(),
    }
}

/// The component's declared configuration entries, or none without a spec.
pub open spec fn component_items(c: Component) -> Seq<NameValuePair> {
    match c.spec {
        Option::Some(s) => s.metadata@,
        Option::None => Seq::empty(),
    }
}

/// The component's declared secret store, or empty without an auth block.
pub open spec fn component_secret_store(c: Component) -> Seq<char> {
    match c.auth {
        Option::Some(a) => a.secret_store@,
        Option::None => Seq::empty(),
    }
}

/// The API version text of this component kind.
pub open spec fn api_version_text() -> Seq<char> {
    GROUP_NAME@ + "/"@ + VERSION@
}

impl Component {
    /// The resource kind.
    pub fn kind(&self) -> (r: &'static str)
        ensures
            r@ == KIND@,
    {
        KIND
    }

    /// The resource API version: the group name and the version.
    pub fn api_version(&self) -> (r: String)
        ensures
            r@ == api_version_text(),
    {
        let mut r = GROUP_NAME.to_owned();
        r.append("/");
        r.append(VERSION);
        r
    }

    /// The component name, or empty when the document carries none.
    pub fn get_name(&self) -> (r: &str)
        ensures
            r@ == component_name(*self),
    {
        match &self.metadata {
            Some(m) => match &m.name {
                Some(n) => n.as_str(),
                None => empty_str(),
            },
            None => empty_str(),
        }
    }

    /// The component namespace, or empty when the document carries none.
    pub fn get_namespace(&self) -> (r: &str)
        ensures
            r@ == component_namespace(*self),
    {
        match &self.metadata {
            Some(m) => match &m.namespace {
                Some(n) => n.as_str(),
                None => empty_str(),
            },
            None => empty_str(),
        }
    }

    /// The name of the component for use in logging.
    pub fn log_name(&self) -> (r: String)
        ensures
            r@ == log_name_text(
                component_name(*self),
                component_type(*self),
                component_version(*self),
            ),
    {
        let name = self.get_name();
        let cmpt_type = match &self.spec {
            Some(s) => s.cmpt_type.as_str(),
            None => empty_str(),
        };
        let version = match &self.spec {
            Some(s) => s.version.as_str(),
            None => empty_str(),
        };
        component_log_name(name, cmpt_type, version)
    }

    /// The name of the secret store, or empty without an auth block.
    pub fn get_secret_store(&self) -> (r: &str)
        ensures
            r@ == component_secret_store(*self),
    {
        match &self.auth {
            Some(a) => a.secret_store.as_str(),
            None => empty_str(),
        }
    }

    /// The component's configuration entries; empty without a spec.
    pub fn name_value_pairs(&self) -> (r: &[NameValuePair])
        ensures
            r@ == component_items(*self),
    {
        match &self.spec {
            Some(s) => s.metadata.as_slice(),
            None => empty_pairs(),
        }
    }

    /// The scopes of the component.
    pub fn get_scopes(&self) -> (r: &[String])
        ensures
            r@ == self.scoped.scopes@,
    {
        self.scoped.scopes.as_slice()
    }

    /// A deep copy of the component whose type metadata carries this kind
    /// and API version and whose object metadata holds only the name.
    pub fn empty_meta_deep_copy(&self) -> (r: Component)
        ensures
            r.type_meta.kind@ == KIND@,
            r.type_meta.api_version@ == api_version_text(),
            component_name(r) == component_name(*self),
            r.metadata matches Some(m) && m.namespace is None,
            r.spec is Some <==> self.spec is Some,
            (match (r.spec, self.spec) {
                (Option::Some(a), Option::Some(b)) => same_spec(a, b),
                (Option::None, Option::None) => true,
                _ => false,
            }),
            r.auth == self.auth,
            r.scoped.scopes.deep_view() == self.scoped.scopes.deep_view(),
    {
        let name = match &self.metadata {
            Some(m) => clone_opt(&m.name),
            None => None,
        };
        Component {
            type_meta: TypeMeta { kind: KIND.to_owned(), api_version: self.api_version() },
            metadata: Some(ObjectMeta { name, namespace: None }),
            spec: match &self.spec {
                Some(s) => Some(s.clone()),
                None => None,
            },
            auth: match &self.auth {
                Some(a) => Some(a.clone()),
                None => None,
            },
            scoped: self.scoped.clone(),
        }
    }
}

/// The empty string, with its view made explicit.
fn empty_str() -> (r: &'static str)
    ensures
        r@ == Seq::<char>::empty(),
{
    proof {
        reveal_strlit("");
        assert(""@ =~= Seq::<char>::empty());
    }
    ""
}

/// An empty slice of configuration entries.
fn empty_pairs() -> (r: &'static [NameValuePair])
    ensures
        r@ == Seq::<NameValuePair>::empty(),
{
    &[]
}

impl Clone for Component {
    fn clone(&self) -> (r: Self)
        ensures
            r.type_meta.kind == self.type_meta.kind,
            r.type_meta.api_version == self.type_meta.api_version,
            r.metadata == self.metadata,
            r.spec is Some <==> self.spec is Some,
            (match (r.spec, self.spec) {
                (Option::Some(a), Option::Some(b)) => same_spec(a, b),
                (Option::None, Option::None) => true,
                _ => false,
            }),
            r.auth == self.auth,
            r.scoped.scopes.deep_view() == self.scoped.scopes.deep_view(),
    {
        Component {
            type_meta: self.type_meta.clone(),
            metadata: match &self.metadata {
                Some(m) => Some(m.clone()),
                None => None,
            },
            spec: match &self.spec {
                Some(s) => Some(s.clone()),
                None => None,
            },
            auth: match &self.auth {
                Some(a) => Some(a.clone()),
                None => None,
            },
            scoped: self.scoped.clone(),
        }
    }
}

/// The resource interface shared by component-like resources.  Only
/// [`Component`] implements it here; future resource kinds implement it the
/// same way.
pub trait Resource {
    /// The resource's declared secret store name, as a sequence.
    spec fn secret_store_spec(&self) -> Seq<char>;

    /// Returns the kind of the resource.
    fn kind(&self) -> String;

    /// Returns the API version of the resource.
    fn api_version(&self) -> String;

    /// Returns the name of the resource.
    fn get_name(&self) -> String;

    /// Returns the namespace of the resource.
    fn get_namespace(&self) -> String;

    /// Returns the log name of the resource.
    fn log_name(&self) -> String;

    /// Returns the secret store name.
    fn get_secret_store(&self) -> (r: String)
        ensures
            r@ == self.secret_store_spec(),
    ;

    /// Returns the scopes of the resource.
    fn get_scopes(&self) -> Vec<String>;

    /// Returns the name-value pairs of the resource.
    fn name_value_pairs(&self) -> Vec<NameValuePair>;
}

impl Resource for Component {
    open spec fn secret_store_spec(&self) -> Seq<char> {
        component_secret_store(*self)
    }

    fn kind(&self) -> String {
        KIND.to_owned()
    }

    fn api_version(&self) -> String {
        Component::api_version(self)
    }

    fn get_name(&self) -> String {
        Component::get_name(self).to_owned()
    }

    fn get_namespace(&self) -> String {
        Component::get_namespace(self).to_owned()
    }

    fn log_name(&self) -> String {
        Component::log_name(self)
    }

    fn get_secret_store(&self) -> (r: String) {
        Component::get_secret_store(self).to_owned()
    }

    fn get_scopes(&self) -> Vec<String>
    {
        let mut scopes: Vec<String> = Vec::new();
        let mut i: usize = 0;
        while i < self.scoped.scopes.len()
            invariant
                i <= self.scoped.scopes@.len(),
            decreases self.scoped.scopes@.len() - i,
        {
            scopes.push(self.scoped.scopes[i].clone());
            i = i + 1;
        }
        scopes
    }

    fn name_value_pairs(&self) -> Vec<NameValuePair>
    {
        let mut pairs: Vec<NameValuePair> = Vec::new();
        match &self.spec {
            Some(s) => {
                let mut i: usize = 0;
                while i < s.metadata.len()
                    invariant
                        i <= s.metadata@.len(),
                    decreases s.metadata@.len() - i,
                {
                    pairs.push(s.metadata[i].clone());
                    i = i + 1;
                }
            },
            None => {},
        }
        pairs
    }
}

} // verus!
