//! A single configuration entry: a name together with an inline value, a
//! secret-store reference, or an environment-variable reference.

use vstd::prelude::*;

use crate::json::DynamicValue;
use crate::json::canon_of;
use crate::json::is_string_value;
use crate::json::json_ok;
use crate::json::lossy_text_of;
use crate::json::lossy_utf8;
use crate::json::null_canon;
use crate::json::parsed_canon;
use crate::json::string_content_of;

verus! {

/// A reference to a value held in a secret store component.
pub struct SecretKeyRef {
    /// Secret name.
    pub name: String,
    /// Field in the secret.
    pub key: Option<String>,
}

impl Clone for SecretKeyRef {
    fn clone(&self) -> (r: Self)
        ensures
            r == *self,
    {
        SecretKeyRef { name: self.name.clone(), key: clone_opt_string(&self.key) }
    }
}

/// A clone of an optional string, equal to the original.
fn clone_opt_string(s: &Option<String>) -> (r: Option<String>)
    ensures
        r == *s,
{
    match s {
        Some(v) => Some(v.clone()),
        None => None,
    }
}

/// A name/value pair.
pub struct NameValuePair {
    /// Name of the property.
    pub name: String,
    /// Value of the property, in plaintext.
    pub value: Option<DynamicValue>,
    /// Reference to a value in a secret store component.
    pub secret_key_ref: Option<SecretKeyRef>,
    /// Name of an environment variable to read the value from.
    pub env_ref: Option<String>,
}

/// The pair carries a value, and that value is not the JSON null.
pub open spec fn pair_has_value(p: NameValuePair) -> bool {
    match p.value {
        Option::Some(dv) => canon_of(dv.raw) != null_canon(),
        Option::None => false,
    }
}

/// How `set_value` encodes raw bytes as a value: bytes that are well-formed
/// JSON are parsed; any other bytes become a JSON string of their UTF-8 text.
pub open spec fn encodes_bytes(dv: DynamicValue, b: Seq<u8>) -> bool {
    if json_ok(b) {
        canon_of(dv.raw) == parsed_canon(b)
    } else {
        is_string_value(dv.raw) && string_content_of(dv.raw) == lossy_text_of(b) && canon_of(
            dv.raw,
        ) != null_canon()
    }
}

impl NameValuePair {
    /// True exactly when the pair has a value and it is not the JSON null.
    pub fn has_value(&self) -> (r: bool)
        ensures
            r == pair_has_value(*self),
    {
        match &self.value {
            Some(dv) => !dv.is_null(),
            None => false,
        }
    }

    /// Sets the value from raw bytes.  Bytes that are well-formed JSON are
    /// parsed as JSON; any other bytes become a JSON string of their UTF-8
    /// text.
    pub fn set_value(&mut self, val: &[u8])
        ensures
            final(self).name == old(self).name,
            final(self).secret_key_ref == old(self).secret_key_ref,
            final(self).env_ref == old(self).env_ref,
            final(self).value matches Some(dv) && encodes_bytes(dv, val@),
    {
        match DynamicValue::from_bytes(val) {
            Ok(dv) => {
                self.value = Some(dv);
            },
            Err(_) => {
                let text = lossy_utf8(val);
                self.value = Some(DynamicValue::from_text(text.as_str()));
            },
        }
    }
}

impl Clone for NameValuePair {
    fn clone(&self) -> (r: Self)
        ensures
            r == *self,
    {
        NameValuePair {
            name: self.name.clone(),
            value: match &self.value {
                Some(dv) => Some(dv.clone()),
                None => None,
            },
            secret_key_ref: match &self.secret_key_ref {
                Some(sk) => Some(sk.clone()),
                None => None,
            },
            env_ref: clone_opt_string(&self.env_ref),
        }
    }
}

impl Default for NameValuePair {
    /// An empty pair: an empty name and no value or reference.
    fn default() -> (r: Self)
        ensures
            r.name@.len() == 0,
            r.value is None,
            r.secret_key_ref is None,
            r.env_ref is None,
    {
        NameValuePair { name: String::new(), value: None, secret_key_ref: None, env_ref: None }
    }
}

} // verus!
