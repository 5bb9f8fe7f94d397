//! Namespace-aware identifiers.
//!
//! An [`Id`] is split into a name (the final `::` segment) and an optional
//! namespace (everything before the last `::`).
use vstd::prelude::*;
use crate::strings::{chars_of, string_from_chars, concat3, str_eq};
use crate::error::parse_error::usize_to_decimal;

verus! {

/// The index of the last occurrence of `::` in `s`, if any.
pub open spec fn last_separator(s: Seq<char>) -> Option<int>
    decreases s.len(),
{
    if s.len() < 2 {
        None
    } else if s[s.len() - 2] == ':' && s[s.len() - 1] == ':' {
        Some(s.len() - 2)
    } else {
        last_separator(s.drop_last())
    }
}

/// The two separator characters.
pub open spec fn separator() -> Seq<char> {
    seq![':', ':']
}

/// Joins a namespace and a name with `::`.
pub open spec fn join_path(namespace: Seq<char>, name: Seq<char>) -> Seq<char> {
    namespace + separator() + name
}

/// The abstract value of an identifier: its name and namespace.
pub struct IdView {
    /// The final path segment.
    pub name: Seq<char>,
    /// The path before the last `::`, if any.
    pub namespace: Option<Seq<char>>,
}

/// The identifier `child` placed under `parent`: the child's name, and a
/// namespace made of the parent's full path and the child's own namespace.
pub open spec fn nested_view(parent: IdView, child: IdView) -> IdView {
    IdView {
        name: child.name,
        namespace: Some(match child.namespace {
            Some(cns) => join_path(parent.full_path(), cns),
            None => parent.full_path(),
        }),
    }
}

/// The identifier that a text names: the part after the last `::` is the
/// name, the part before it (if any) the namespace.
pub open spec fn id_of_text(input: Seq<char>) -> IdView {
    match last_separator(input) {
        Some(i) => IdView { name: input.subrange(i + 2, input.len() as int), namespace: Some(input.subrange(0, i)) },
        None => IdView { name: input, namespace: None },
    }
}

impl IdView {
    /// The full path: `namespace::name`, or just `name`.
    pub open spec fn full_path(self) -> Seq<char> {
        match self.namespace {
            Some(ns) => join_path(ns, self.name),
            None => self.name,
        }
    }
}

/// A name without `:` has no `::` separator.
pub proof fn lemma_no_colon_no_separator(s: Seq<char>)
    requires
        forall|i: int| 0 <= i < s.len() ==> s[i] != ':',
    ensures
        last_separator(s) is None,
    decreases s.len(),
{
    if s.len() >= 2 {
        lemma_no_colon_no_separator(s.drop_last());
    }
}

/// A `::` found in a suffix stays the last one after a prefix is put in
/// front: it moves by the prefix's length.
proof fn lemma_last_separator_after_prefix(prefix: Seq<char>, s: Seq<char>, i: int)
    requires
        last_separator(s) == Some(i),
    ensures
        last_separator(prefix + s) == Some(prefix.len() + i),
    decreases s.len(),
{
    let t = prefix + s;
    if s.len() >= 2 {
        assert(t[t.len() - 2] == s[s.len() - 2] && t[t.len() - 1] == s[s.len() - 1]);
        if !(s[s.len() - 2] == ':' && s[s.len() - 1] == ':') {
            lemma_last_separator_after_prefix(prefix, s.drop_last(), i);
            assert(t.drop_last() =~= prefix + s.drop_last());
        }
    }
}

/// A text with no `::` that does not start with `:`, joined to a path,
/// leaves the joining `::` as the last one.
proof fn lemma_last_separator_of_join(namespace: Seq<char>, name: Seq<char>)
    requires
        last_separator(name) is None,
        name.len() == 0 || name[0] != ':',
    ensures
        last_separator(join_path(namespace, name)) == Some(namespace.len() as int),
    decreases name.len(),
{
    let s = join_path(namespace, name);
    if name.len() == 0 {
        assert(s[s.len() - 2] == ':' && s[s.len() - 1] == ':');
    } else {
        assert(s[s.len() - 1] == name[name.len() - 1]);
        if name.len() >= 2 {
            assert(s[s.len() - 2] == name[name.len() - 2]);
        } else {
            assert(s[s.len() - 1] == name[0]);
        }
        let shorter = name.drop_last();
        lemma_last_separator_of_join(namespace, shorter);
        assert(s.drop_last() =~= join_path(namespace, shorter));
    }
}

/// Nesting the identifier that a text names under a parent gives the
/// identifier that the joined text names: `system` with `backend` gives
/// `system::backend`, and `system` with `sub::component` gives
/// `system::sub::component`, whose namespace is `system::sub`. It holds for
/// every text but one that has no `::` and starts with `:`, where the
/// joined text would hold a `:::`.
pub proof fn lemma_nested_is_joined_path(parent: IdView, child: Seq<char>)
    requires
        last_separator(child) is Some || child.len() == 0 || child[0] != ':',
    ensures
        nested_view(parent, id_of_text(child)) == id_of_text(join_path(parent.full_path(), child)),
{
    let p = parent.full_path();
    let s = join_path(p, child);
    match last_separator(child) {
        Some(i) => {
            lemma_last_separator_in_range(child);
            lemma_last_separator_after_prefix(p + separator(), child, i);
            assert(s == (p + separator()) + child);
            assert(s.subrange(p.len() + 2 + i + 2, s.len() as int) =~= child.subrange(i + 2, child.len() as int));
            assert(s.subrange(0, p.len() + 2 + i) =~= join_path(p, child.subrange(0, i)));
        },
        None => {
            lemma_last_separator_of_join(p, child);
            assert(s.subrange(0, p.len() as int) =~= p);
            assert(s.subrange(p.len() as int + 2, s.len() as int) =~= child);
        },
    }
}

/// The last `::` lies within the text.
proof fn lemma_last_separator_in_range(s: Seq<char>)
    ensures
        last_separator(s) matches Some(i) ==> 0 <= i && i + 2 <= s.len(),
    decreases s.len(),
{
    if s.len() >= 2 {
        lemma_last_separator_in_range(s.drop_last());
    }
}

/// An identifier: a name and an optional namespace.
#[derive(Debug, Hash)]
pub struct Id {
    name: String,
    namespace: Option<String>,
}

impl Id {
    /// The final path segment.
    pub closed spec fn spec_name(&self) -> Seq<char> {
        self.name@
    }

    /// The path before the last `::`, if any.
    pub closed spec fn spec_namespace(&self) -> Option<Seq<char>> {
        match &self.namespace {
            Some(ns) => Some(ns@),
            None => None,
        }
    }

    /// The full path: `namespace::name`, or just `name`.
    pub open spec fn spec_full_path(&self) -> Seq<char> {
        match self.spec_namespace() {
            Some(ns) => join_path(ns, self.spec_name()),
            None => self.spec_name(),
        }
    }

    /// Whether this identifier is what [`Id::new`] gives for `input`.
    pub open spec fn spec_parsed_from(&self, input: Seq<char>) -> bool {
        match last_separator(input) {
            Some(i) => {
                &&& self.spec_namespace() == Some(input.subrange(0, i))
                &&& self.spec_name() == input.subrange(i + 2, input.len() as int)
            },
            None => {
                &&& self.spec_namespace() is None
                &&& self.spec_name() == input
            },
        }
    }

    /// Identifiers are equal when their names and namespaces are.
    pub open spec fn spec_same(&self, other: &Id) -> bool {
        self.spec_name() == other.spec_name() && self.spec_namespace() == other.spec_namespace()
    }

    /// Creates an identifier from text.
    ///
    /// When the text contains `::`, the segment after the last `::` is the
    /// name and everything before it is the namespace.
    pub fn new(input: &str) -> (r: Id)
        ensures
            r.spec_parsed_from(input@),
            r@ == id_of_text(input@),
    {
        let chars = chars_of(input);
        let n = chars.len();
        let mut k = n;
        proof {
            assert(input@.subrange(0, n as int) =~= input@);
        }
        // Scan backwards for the last `::`.
        while k >= 2
            invariant
                chars@ == input@,
                n == chars@.len(),
                k <= n,
                last_separator(input@) == last_separator(input@.subrange(0, k as int)),
            decreases k,
        {
            let ghost prefix = input@.subrange(0, k as int);
            if chars[k - 2] == ':' && chars[k - 1] == ':' {
                let ns = string_from_chars(chars.as_slice(), 0, k - 2);
                let name = string_from_chars(chars.as_slice(), k, n);
                return Id { name, namespace: Some(ns) };
            }
            proof {
                assert(prefix.drop_last() =~= input@.subrange(0, k - 1));
            }
            k = k - 1;
        }
        let name = string_from_chars(chars.as_slice(), 0, n);
        Id { name, namespace: None }
    }

    /// Creates the anonymous identifier `__{index}`, which has no namespace.
    pub fn anonymous(index: usize) -> (r: Id)
        ensures
            r.spec_name() == "__"@ + crate::error::parse_error::decimal(index as nat),
            r.spec_namespace() is None,
    {
        let digits = usize_to_decimal(index);
        let name = crate::strings::concat("__", digits.as_str());
        Id { name, namespace: None }
    }

    /// Nests `child_id` under this identifier: the new namespace is this
    /// identifier's full path (followed by the child's namespace, if any),
    /// and the new name is the child's name.
    pub fn create_nested(&self, child_id: &Id) -> (r: Id)
        ensures
            r@ == nested_view(self@, child_id@),
            r.spec_name() == child_id.spec_name(),
            r.spec_namespace() == Some(match child_id.spec_namespace() {
                Some(cns) => join_path(self.spec_full_path(), cns),
                None => self.spec_full_path(),
            }),
    {
        let parent_full = self.to_string();
        let ns = match &child_id.namespace {
            Some(cns) => concat3(parent_full.as_str(), "::", cns.as_str()),
            None => parent_full,
        };
        proof {
            reveal_strlit("::");
        }
        let r = Id { name: child_id.name.clone(), namespace: Some(ns) };
        proof {
            assert(self@.full_path() == self.spec_full_path());
            assert(r@.name == nested_view(self@, child_id@).name);
            assert(r@.namespace == nested_view(self@, child_id@).namespace);
        }
        r
    }

    /// Returns the name (final path segment).
    pub fn name(&self) -> (r: &str)
        ensures
            r@ == self.spec_name(),
    {
        self.name.as_str()
    }

    /// Returns the namespace, if any.
    pub fn namespace(&self) -> (r: Option<&str>)
        ensures
            match r {
                Some(s) => self.spec_namespace() == Some(s@),
                None => self.spec_namespace() is None,
            },
    {
        match &self.namespace {
            Some(ns) => Some(ns.as_str()),
            None => None,
        }
    }

    /// The full path, `namespace::name` or `name`.
    pub fn to_string(&self) -> (r: String)
        ensures
            r@ == self.spec_full_path(),
    {
        proof {
            reveal_strlit("::");
        }
        match &self.namespace {
            Some(ns) => concat3(ns.as_str(), "::", self.name.as_str()),
            None => self.name.clone(),
        }
    }

    /// Compares the full path with a string slice.
    pub fn eq_str(&self, other: &str) -> (r: bool)
        ensures
            r == (self.spec_full_path() == other@),
    {
        let full = self.to_string();
        str_eq(full.as_str(), other)
    }
}

impl View for Id {
    type V = IdView;

    open spec fn view(&self) -> IdView {
        IdView { name: self.spec_name(), namespace: self.spec_namespace() }
    }
}

impl PartialEq for Id {
    fn eq(&self, other: &Id) -> (r: bool) {
        let same_name = self.name == other.name;
        let same_ns = match (&self.namespace, &other.namespace) {
            (Some(a), Some(b)) => *a == *b,
            (None, None) => true,
            _ => false,
        };
        same_name && same_ns
    }
}

impl Eq for Id {
}

impl PartialEq<str> for Id {
    fn eq(&self, other: &str) -> (r: bool) {
        self.eq_str(other)
    }
}

impl<'a> PartialEq<&'a str> for Id {
    fn eq(&self, other: &&'a str) -> (r: bool) {
        self.eq_str(*other)
    }
}

impl std::str::FromStr for Id {
    type Err = ();

    fn from_str(s: &str) -> (r: Result<Id, ()>)
        ensures
            r matches Ok(id) && id.spec_parsed_from(s@) && id@ == id_of_text(s@),
    {
        Ok(Id::new(s))
    }
}

impl<'a> From<&'a str> for Id {
    fn from(name: &'a str) -> (r: Id)
        ensures
            r.spec_parsed_from(name@),
            r@ == id_of_text(name@),
    {
        Id::new(name)
    }
}

/// Conversion from text is stated by its view on `from` itself; two strings
/// with one view are not known to be one value, so no exact `from_spec` is
/// claimed.
impl<'a> vstd::std_specs::convert::FromSpecImpl<&'a str> for Id {
    open spec fn obeys_from_spec() -> bool {
        false
    }

    open spec fn from_spec(v: &'a str) -> Id {
        choose|r: Id| r@ == id_of_text(v@)
    }
}

impl Clone for Id {
    fn clone(&self) -> (r: Id)
        ensures
            r == *self,
    {
        let namespace = match &self.namespace {
            Some(ns) => Some(ns.clone()),
            None => None,
        };
        Id { name: self.name.clone(), namespace }
    }
}

impl vstd::std_specs::cmp::PartialEqSpecImpl<str> for Id {
    open spec fn obeys_eq_spec() -> bool {
        true
    }

    open spec fn eq_spec(&self, other: &str) -> bool {
        self.spec_full_path() == other@
    }
}

impl<'a> vstd::std_specs::cmp::PartialEqSpecImpl<&'a str> for Id {
    open spec fn obeys_eq_spec() -> bool {
        true
    }

    open spec fn eq_spec(&self, other: &&'a str) -> bool {
        self.spec_full_path() == (*other)@
    }
}

impl vstd::std_specs::cmp::PartialEqSpecImpl for Id {
    open spec fn obeys_eq_spec() -> bool {
        true
    }

    open spec fn eq_spec(&self, other: &Id) -> bool {
        self.spec_same(other)
    }
}

} // verus!
