//! The parts of an API discovery document that the helpers read: resources,
//! their methods, and the OAuth scopes of each method.
use vstd::prelude::*;
use crate::error::{concat3, GwsError};
use crate::text::{copy_strings, same_text, string_views};

verus! {

/// A method of a discovery document.
#[derive(Debug)]
pub struct RestMethod {
    /// The OAuth scopes that the method accepts.
    pub scopes: Vec<String>,
}

/// A resource of a discovery document: its methods and nested resources,
/// each under its name. In a discovery document names are unique
/// (`RestResource::well_formed`).
#[derive(Debug)]
pub struct RestResource {
    pub methods: Vec<(String, RestMethod)>,
    pub resources: Vec<(String, RestResource)>,
}

/// A discovery document: its top-level resources under their names.
#[derive(Debug)]
pub struct RestDescription {
    pub resources: Vec<(String, RestResource)>,
}

/// No two entries have the same name.
pub open spec fn names_distinct<T>(entries: Seq<(String, T)>) -> bool {
    forall|i: int, j: int| 0 <= i < j < entries.len() ==> entries[i].0@ != entries[j].0@
}

impl RestResource {
    /// The resource is a map: its methods have distinct names, its nested
    /// resources have distinct names, and each nested resource is a map too.
    pub open spec fn well_formed(self) -> bool
        decreases self,
    {
        &&& names_distinct(self.methods@)
        &&& names_distinct(self.resources@)
        &&& forall|i: int|
            0 <= i < self.resources@.len() ==> (#[trigger] self.resources@[i]).1.well_formed()
    }
}

impl RestDescription {
    /// The document is a map: its top-level resources have distinct names,
    /// and each is well formed.
    pub open spec fn well_formed(self) -> bool {
        &&& names_distinct(self.resources@)
        &&& forall|i: int|
            0 <= i < self.resources@.len() ==> (#[trigger] self.resources@[i]).1.well_formed()
    }
}

/// The resource named `name` among `entries` (the first one, names being unique).
pub open spec fn resource_named(entries: Seq<(String, RestResource)>, name: Seq<char>) -> Option<RestResource>
    decreases entries.len(),
{
    if entries.len() == 0 {
        None
    } else if entries[0].0@ == name {
        Some(entries[0].1)
    } else {
        resource_named(entries.drop_first(), name)
    }
}

/// The method named `name` among `entries`.
pub open spec fn method_named(entries: Seq<(String, RestMethod)>, name: Seq<char>) -> Option<RestMethod>
    decreases entries.len(),
{
    if entries.len() == 0 {
        None
    } else if entries[0].0@ == name {
        Some(entries[0].1)
    } else {
        method_named(entries.drop_first(), name)
    }
}

/// Where names are distinct, looking up a name gives the one entry with that
/// name, wherever it stands.
pub proof fn lemma_resource_named_unique(entries: Seq<(String, RestResource)>, i: int)
    requires
        names_distinct(entries),
        0 <= i < entries.len(),
    ensures
        resource_named(entries, entries[i].0@) == Some(entries[i].1),
    decreases entries.len(),
{
    if i > 0 {
        let rest = entries.drop_first();
        assert(rest[i - 1] == entries[i]);
        assert(names_distinct(rest)) by {
            assert forall|a: int, b: int| 0 <= a < b < rest.len() implies rest[a].0@ != rest[b].0@ by {
                assert(rest[a] == entries[a + 1]);
                assert(rest[b] == entries[b + 1]);
            }
        }
        lemma_resource_named_unique(rest, i - 1);
    }
}

/// Where names are distinct, looking up a name gives the one method with
/// that name, wherever it stands.
pub proof fn lemma_method_named_unique(entries: Seq<(String, RestMethod)>, i: int)
    requires
        names_distinct(entries),
        0 <= i < entries.len(),
    ensures
        method_named(entries, entries[i].0@) == Some(entries[i].1),
    decreases entries.len(),
{
    if i > 0 {
        let rest = entries.drop_first();
        assert(rest[i - 1] == entries[i]);
        assert(names_distinct(rest)) by {
            assert forall|a: int, b: int| 0 <= a < b < rest.len() implies rest[a].0@ != rest[b].0@ by {
                assert(rest[a] == entries[a + 1]);
                assert(rest[b] == entries[b + 1]);
            }
        }
        lemma_method_named_unique(rest, i - 1);
    }
}

/// In a well-formed document, the scopes found for `resource` and `method`
/// are those of the one method of that name in the one resource of that name.
pub proof fn lemma_scopes_of_unique_method(doc: RestDescription, i: int, k: int)
    requires
        doc.well_formed(),
        0 <= i < doc.resources@.len(),
        0 <= k < doc.resources@[i].1.methods@.len(),
    ensures
        method_scopes_spec(doc, doc.resources@[i].0@, None, doc.resources@[i].1.methods@[k].0@)
            == Ok::<Seq<Seq<char>>, Seq<char>>(string_views(doc.resources@[i].1.methods@[k].1.scopes@)),
{
    lemma_resource_named_unique(doc.resources@, i);
    assert(doc.resources@[i].1.well_formed());
    lemma_method_named_unique(doc.resources@[i].1.methods@, k);
}

/// In a well-formed document, the scopes found for `resource.sub` and
/// `method` are those of the one method of that name in the one nested
/// resource of that name.
pub proof fn lemma_scopes_of_unique_nested_method(doc: RestDescription, i: int, j: int, k: int)
    requires
        doc.well_formed(),
        0 <= i < doc.resources@.len(),
        0 <= j < doc.resources@[i].1.resources@.len(),
        0 <= k < doc.resources@[i].1.resources@[j].1.methods@.len(),
    ensures
        method_scopes_spec(
            doc,
            doc.resources@[i].0@,
            Some(doc.resources@[i].1.resources@[j].0@),
            doc.resources@[i].1.resources@[j].1.methods@[k].0@,
        ) == Ok::<Seq<Seq<char>>, Seq<char>>(
            string_views(doc.resources@[i].1.resources@[j].1.methods@[k].1.scopes@),
        ),
{
    let res = doc.resources@[i].1;
    lemma_resource_named_unique(doc.resources@, i);
    assert(doc.resources@[i].1.well_formed());
    assert(res.well_formed());
    assert(res.resources@[j].1.well_formed());
    lemma_resource_named_unique(res.resources@, j);
    lemma_method_named_unique(res.resources@[j].1.methods@, k);
}

/// Finds a resource by name.
pub fn find_resource<'a>(entries: &'a Vec<(String, RestResource)>, name: &str) -> (r: Option<&'a RestResource>)
    ensures
        match r {
            Some(res) => resource_named(entries@, name@) == Some(*res),
            None => resource_named(entries@, name@) is None,
        },
{
    let mut i: usize = 0;
    assert(entries@.skip(0) =~= entries@);
    while i < entries.len()
        invariant
            i <= entries.len(),
            resource_named(entries@, name@) == resource_named(entries@.skip(i as int), name@),
        decreases entries.len() - i,
    {
        assert(entries@.skip(i as int).drop_first() =~= entries@.skip(i + 1));
        assert(entries@.skip(i as int)[0] == entries@[i as int]);
        if same_text(entries[i].0.as_str(), name) {
            return Some(&entries[i].1);
        }
        i = i + 1;
    }
    assert(entries@.skip(i as int).len() == 0);
    None
}

/// Finds a method by name.
pub fn find_method<'a>(entries: &'a Vec<(String, RestMethod)>, name: &str) -> (r: Option<&'a RestMethod>)
    ensures
        match r {
            Some(m) => method_named(entries@, name@) == Some(*m),
            None => method_named(entries@, name@) is None,
        },
{
    let mut i: usize = 0;
    assert(entries@.skip(0) =~= entries@);
    while i < entries.len()
        invariant
            i <= entries.len(),
            method_named(entries@, name@) == method_named(entries@.skip(i as int), name@),
        decreases entries.len() - i,
    {
        assert(entries@.skip(i as int).drop_first() =~= entries@.skip(i + 1));
        assert(entries@.skip(i as int)[0] == entries@[i as int]);
        if same_text(entries[i].0.as_str(), name) {
            return Some(&entries[i].1);
        }
        i = i + 1;
    }
    assert(entries@.skip(i as int).len() == 0);
    None
}

/// The scopes of the method `method` of the nested resource `resource.sub`
/// (`sub` absent: of `resource` itself), or the discovery error naming the
/// first missing piece.
pub open spec fn method_scopes_spec(
    doc: RestDescription,
    resource: Seq<char>,
    sub: Option<Seq<char>>,
    method: Seq<char>,
) -> Result<Seq<Seq<char>>, Seq<char>> {
    match resource_named(doc.resources@, resource) {
        None => Err("Resource '"@ + resource + "' not found"@),
        Some(res) => {
            let (holder, path) = match sub {
                None => (Some(res), resource),
                Some(s) => (resource_named(res.resources@, s), resource + "."@ + s),
            };
            match holder {
                None => Err("Resource '"@ + path + "' not found"@),
                Some(h) => match method_named(h.methods@, method) {
                    None => Err("Method '"@ + path + "."@ + method + "' not found"@),
                    Some(m) => Ok(string_views(m.scopes@)),
                },
            }
        },
    }
}

fn discovery_error(a: &str, b: &str, c: &str) -> (r: GwsError)
    ensures
        r matches GwsError::Discovery(m) && m@ == a@ + b@ + c@,
{
    GwsError::Discovery(concat3(a, b, c))
}

/// The scopes of a method found by resource path, as `build_*_request` read
/// them; `path` is the dotted resource path used in the error messages.
pub fn method_scopes(
    doc: &RestDescription,
    resource: &str,
    sub: Option<&str>,
    path: &str,
    method: &str,
) -> (r: Result<Vec<String>, GwsError>)
    requires
        path@ == match sub {
            None => resource@,
            Some(s) => resource@ + "."@ + s@,
        },
    ensures
        match (r, method_scopes_spec(
            *doc,
            resource@,
            match sub {
                Some(s) => Some(s@),
                None => None,
            },
            method@,
        )) {
            (Ok(v), Ok(s)) => string_views(v@) == s,
            (Err(GwsError::Discovery(m)), Err(t)) => m@ == t,
            _ => false,
        },
{
    let res = match find_resource(&doc.resources, resource) {
        Some(r) => r,
        None => {
            return Err(discovery_error("Resource '", resource, "' not found"));
        },
    };
    let holder = match sub {
        None => res,
        Some(s) => match find_resource(&res.resources, s) {
            Some(h) => h,
            None => {
                return Err(discovery_error("Resource '", path, "' not found"));
            },
        },
    };
    match find_method(&holder.methods, method) {
        None => {
            let head = concat3(path, ".", method);
            let e = discovery_error("Method '", head.as_str(), "' not found");
            Err(e)
        },
        Some(m) => Ok(copy_strings(&m.scopes)),
    }
}

} // verus!
