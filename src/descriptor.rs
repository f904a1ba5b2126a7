use vstd::prelude::*;

use crate::text::owned;
use crate::tree::{entries_view, find_entry, lookup, merge, merge_tree, Tree, Value};
use crate::version::{denotes, follows_version_grammar, parse_version, version_overflows, Version};

verus! {

/// A chart descriptor, decoded from a document tree.
#[derive(Debug, Default, PartialEq)]
pub struct Chart {
    pub api_version: String,
    pub name: String,
    pub version: Version,
    pub kube_version: String,
    pub description: String,
    pub type_: String,
    pub keywords: Vec<String>,
    pub home: String,
    pub sources: Vec<String>,
    pub dependencies: Vec<Dependency>,
    pub maintainers: Vec<Maintainer>,
    pub icon: String,
    pub app_version: String,
    pub deprecated: bool,
    pub annotations: Vec<String>,
}

/// A chart that a chart depends on.
#[derive(Debug, Default, PartialEq)]
pub struct Dependency {
    pub name: String,
    pub version: Version,
    pub repository: String,
    pub condition: String,
    pub tags: Vec<String>,
    pub import_values: Vec<String>,
    pub alias: String,
}

/// A person who maintains a chart.
#[derive(Debug, Default, PartialEq)]
pub struct Maintainer {
    pub name: String,
    pub email: String,
    pub url: String,
}

/// An index of charts.
#[derive(Debug, Default, PartialEq)]
pub struct Repository {
    pub api_version: String,
    pub generated: String,
    pub entries: Vec<RepositoryEntry>,
}

/// One chart of an index.
#[derive(Debug, Default, PartialEq)]
pub struct RepositoryEntry {
    pub api_version: String,
    pub created: String,
    pub description: String,
    pub digest: String,
    pub version: Version,
    pub kube_version: String,
    pub type_: String,
    pub keywords: Vec<String>,
    pub home: String,
    pub sources: Vec<String>,
    pub dependencies: Vec<Dependency>,
    pub maintainers: Vec<Maintainer>,
    pub icon: String,
    pub app_version: String,
    pub deprecated: bool,
    pub annotations: Vec<String>,
}

/// Why a tree does not decode into a descriptor.
#[derive(Debug, PartialEq)]
pub enum DecodeError {
    /// A required field is absent.
    MissingField(String),
    /// A field holds a value of another kind: field, expected kind, found kind.
    TypeMismatch(String, String, String),
    /// The version field holds a text that is not a version.
    InvalidVersion(String),
}

/// The model of a [`DecodeError`].
pub enum DecodeFault {
    MissingField(Seq<char>),
    TypeMismatch(Seq<char>, Seq<char>, Seq<char>),
    InvalidVersion(Seq<char>),
}

impl View for DecodeError {
    type V = DecodeFault;

    open spec fn view(&self) -> DecodeFault {
        match self {
            DecodeError::MissingField(f) => DecodeFault::MissingField(f@),
            DecodeError::TypeMismatch(f, e, a) => DecodeFault::TypeMismatch(f@, e@, a@),
            DecodeError::InvalidVersion(s) => DecodeFault::InvalidVersion(s@),
        }
    }
}

/// The name of a node's kind, as errors report it.
pub open spec fn kind_of(t: Tree) -> Seq<char> {
    match t {
        Tree::Null => "null"@,
        Tree::Bool(_) => "bool"@,
        Tree::Number(_) => "number"@,
        Tree::Str(_) => "string"@,
        Tree::Mapping(_) => "mapping"@,
        Tree::Sequence(_) => "sequence"@,
    }
}

pub open spec fn mismatch(name: Seq<char>, expected: Seq<char>, t: Tree) -> DecodeFault {
    DecodeFault::TypeMismatch(name, expected, kind_of(t))
}

/// A text field: a string node; when absent, an error if it is required and
/// the empty text if not.
pub open spec fn text_field(e: Seq<(Seq<char>, Tree)>, name: Seq<char>, required: bool) -> Result<
    Seq<char>,
    DecodeFault,
> {
    match lookup(e, name) {
        None => if required {
            Err(DecodeFault::MissingField(name))
        } else {
            Ok(Seq::empty())
        },
        Some(Tree::Str(s)) => Ok(s),
        Some(t) => Err(mismatch(name, "string"@, t)),
    }
}

/// A flag field: a boolean node, false when absent.
pub open spec fn flag_field(e: Seq<(Seq<char>, Tree)>, name: Seq<char>) -> Result<bool, DecodeFault> {
    match lookup(e, name) {
        None => Ok(false),
        Some(Tree::Bool(b)) => Ok(b),
        Some(t) => Err(mismatch(name, "bool"@, t)),
    }
}

/// The texts of a sequence's items; the first item that is no string is an
/// error.
pub open spec fn text_items(items: Seq<Tree>, name: Seq<char>) -> Result<Seq<Seq<char>>, DecodeFault>
    decreases items.len(),
{
    if items.len() == 0 {
        Ok(Seq::empty())
    } else {
        match items[0] {
            Tree::Str(s) => match text_items(items.drop_first(), name) {
                Ok(rest) => Ok(seq![s] + rest),
                Err(f) => Err(f),
            },
            t => Err(mismatch(name, "string"@, t)),
        }
    }
}

/// A list-of-texts field: a sequence of strings, empty when absent.
pub open spec fn list_field(e: Seq<(Seq<char>, Tree)>, name: Seq<char>) -> Result<
    Seq<Seq<char>>,
    DecodeFault,
> {
    match lookup(e, name) {
        None => Ok(Seq::empty()),
        Some(Tree::Sequence(items)) => text_items(items, name),
        Some(t) => Err(mismatch(name, "sequence"@, t)),
    }
}

/// The required version field: its text, which must be a version whose
/// numbers fit in an `i32`.
pub open spec fn version_field(e: Seq<(Seq<char>, Tree)>, name: Seq<char>) -> Result<
    Seq<char>,
    DecodeFault,
> {
    match lookup(e, name) {
        None => Err(DecodeFault::MissingField(name)),
        Some(Tree::Str(s)) => if follows_version_grammar(s) && !version_overflows(s) {
            Ok(s)
        } else {
            Err(DecodeFault::InvalidVersion(s))
        },
        Some(t) => Err(mismatch(name, "string"@, t)),
    }
}

/// The first of two possible errors.
pub open spec fn first_fault(a: Option<DecodeFault>, b: Option<DecodeFault>) -> Option<DecodeFault> {
    if a is Some {
        a
    } else {
        b
    }
}

pub open spec fn fault_of<T>(r: Result<T, DecodeFault>) -> Option<DecodeFault> {
    match r {
        Ok(_) => None,
        Err(f) => Some(f),
    }
}

pub open spec fn texts_view(v: Seq<String>) -> Seq<Seq<char>> {
    Seq::new(v.len(), |i: int| v[i]@)
}

/// `v` is the version that the text `s` denotes.
pub open spec fn version_is(v: Version, s: Seq<char>) -> bool {
    v.wf() && denotes(s, v.major as int, v.minor as int, v.bugfix as int, v.slug@)
}

pub open spec fn text_is(r: Result<Seq<char>, DecodeFault>, s: Seq<char>) -> bool {
    r matches Ok(x) && x == s
}

pub open spec fn list_is(r: Result<Seq<Seq<char>>, DecodeFault>, l: Seq<String>) -> bool {
    r matches Ok(x) && x == texts_view(l)
}

/// The first error in decoding a maintainer from `t`, if any.
pub open spec fn maintainer_fault(t: Tree) -> Option<DecodeFault> {
    match t {
        Tree::Mapping(e) => first_fault(
            fault_of(text_field(e, "name"@, true)),
            first_fault(
                fault_of(text_field(e, "email"@, false)),
                fault_of(text_field(e, "url"@, true)),
            ),
        ),
        _ => Some(mismatch("maintainers"@, "mapping"@, t)),
    }
}

/// `m` is the maintainer that `t` describes.
pub open spec fn maintainer_is(m: Maintainer, t: Tree) -> bool {
    match t {
        Tree::Mapping(e) => {
            &&& text_is(text_field(e, "name"@, true), m.name@)
            &&& text_is(text_field(e, "email"@, false), m.email@)
            &&& text_is(text_field(e, "url"@, true), m.url@)
        },
        _ => false,
    }
}

/// The first error in decoding a dependency from `t`, if any.
pub open spec fn dependency_fault(t: Tree) -> Option<DecodeFault> {
    match t {
        Tree::Mapping(e) => first_fault(
            fault_of(text_field(e, "name"@, true)),
            first_fault(
                fault_of(version_field(e, "version"@)),
                first_fault(
                    fault_of(text_field(e, "repository"@, false)),
                    first_fault(
                        fault_of(text_field(e, "condition"@, false)),
                        first_fault(
                            fault_of(list_field(e, "tags"@)),
                            first_fault(
                                fault_of(list_field(e, "import-values"@)),
                                fault_of(text_field(e, "alias"@, false)),
                            ),
                        ),
                    ),
                ),
            ),
        ),
        _ => Some(mismatch("dependencies"@, "mapping"@, t)),
    }
}

/// `d` is the dependency that `t` describes.
pub open spec fn dependency_is(d: Dependency, t: Tree) -> bool {
    match t {
        Tree::Mapping(e) => {
            &&& text_is(text_field(e, "name"@, true), d.name@)
            &&& version_field(e, "version"@) matches Ok(s) && version_is(d.version, s)
            &&& text_is(text_field(e, "repository"@, false), d.repository@)
            &&& text_is(text_field(e, "condition"@, false), d.condition@)
            &&& list_is(list_field(e, "tags"@), d.tags@)
            &&& list_is(list_field(e, "import-values"@), d.import_values@)
            &&& text_is(text_field(e, "alias"@, false), d.alias@)
        },
        _ => false,
    }
}

/// The first error among the maintainers `items`, if any.
pub open spec fn maintainers_fault(items: Seq<Tree>) -> Option<DecodeFault>
    decreases items.len(),
{
    if items.len() == 0 {
        None
    } else {
        first_fault(maintainer_fault(items[0]), maintainers_fault(items.drop_first()))
    }
}

/// The first error among the dependencies `items`, if any.
pub open spec fn dependencies_fault(items: Seq<Tree>) -> Option<DecodeFault>
    decreases items.len(),
{
    if items.len() == 0 {
        None
    } else {
        first_fault(dependency_fault(items[0]), dependencies_fault(items.drop_first()))
    }
}

/// The first error in the `maintainers` field of `e`, if any.
pub open spec fn maintainers_field_fault(e: Seq<(Seq<char>, Tree)>) -> Option<DecodeFault> {
    match lookup(e, "maintainers"@) {
        None => None,
        Some(Tree::Sequence(items)) => maintainers_fault(items),
        Some(t) => Some(mismatch("maintainers"@, "sequence"@, t)),
    }
}

/// The first error in the `dependencies` field of `e`, if any.
pub open spec fn dependencies_field_fault(e: Seq<(Seq<char>, Tree)>) -> Option<DecodeFault> {
    match lookup(e, "dependencies"@) {
        None => None,
        Some(Tree::Sequence(items)) => dependencies_fault(items),
        Some(t) => Some(mismatch("dependencies"@, "sequence"@, t)),
    }
}

/// `ms` are the maintainers that the `maintainers` field of `e` lists
/// (none when it is absent).
pub open spec fn maintainers_are(ms: Seq<Maintainer>, e: Seq<(Seq<char>, Tree)>) -> bool {
    match lookup(e, "maintainers"@) {
        None => ms.len() == 0,
        Some(Tree::Sequence(items)) => ms.len() == items.len() && forall|i: int|
            0 <= i < items.len() ==> maintainer_is(#[trigger] ms[i], items[i]),
        _ => false,
    }
}

/// `ds` are the dependencies that the `dependencies` field of `e` lists
/// (none when it is absent).
pub open spec fn dependencies_are(ds: Seq<Dependency>, e: Seq<(Seq<char>, Tree)>) -> bool {
    match lookup(e, "dependencies"@) {
        None => ds.len() == 0,
        Some(Tree::Sequence(items)) => ds.len() == items.len() && forall|i: int|
            0 <= i < items.len() ==> dependency_is(#[trigger] ds[i], items[i]),
        _ => false,
    }
}

/// The first error in decoding a chart from `t`, if any. Fields are
/// checked in this order: apiVersion, name, version, kubeVersion,
/// description, type, keywords, home, sources, dependencies, maintainers,
/// icon, appVersion, deprecated, annotations.
pub open spec fn chart_fault(t: Tree) -> Option<DecodeFault> {
    match t {
        Tree::Mapping(e) => first_fault(
            fault_of(text_field(e, "apiVersion"@, true)),
            first_fault(
                fault_of(text_field(e, "name"@, true)),
                first_fault(
                    fault_of(version_field(e, "version"@)),
                    first_fault(
                        fault_of(text_field(e, "kubeVersion"@, false)),
                        first_fault(
                            fault_of(text_field(e, "description"@, true)),
                            first_fault(
                                fault_of(text_field(e, "type"@, true)),
                                chart_tail_fault(e),
                            ),
                        ),
                    ),
                ),
            ),
        ),
        _ => Some(mismatch("chart"@, "mapping"@, t)),
    }
}

/// The first error among the fields of a chart after `type`, if any.
pub open spec fn chart_tail_fault(e: Seq<(Seq<char>, Tree)>) -> Option<DecodeFault> {
    first_fault(
        fault_of(list_field(e, "keywords"@)),
        first_fault(
            fault_of(text_field(e, "home"@, false)),
            first_fault(
                fault_of(list_field(e, "sources"@)),
                first_fault(
                    dependencies_field_fault(e),
                    first_fault(
                        maintainers_field_fault(e),
                        first_fault(
                            fault_of(text_field(e, "icon"@, false)),
                            first_fault(
                                fault_of(text_field(e, "appVersion"@, false)),
                                first_fault(
                                    fault_of(flag_field(e, "deprecated"@)),
                                    fault_of(list_field(e, "annotations"@)),
                                ),
                            ),
                        ),
                    ),
                ),
            ),
        ),
    )
}

/// `c` is the chart that `t` describes.
pub open spec fn chart_is(c: Chart, t: Tree) -> bool {
    match t {
        Tree::Mapping(e) => {
            &&& text_is(text_field(e, "apiVersion"@, true), c.api_version@)
            &&& text_is(text_field(e, "name"@, true), c.name@)
            &&& version_field(e, "version"@) matches Ok(s) && version_is(c.version, s)
            &&& text_is(text_field(e, "kubeVersion"@, false), c.kube_version@)
            &&& text_is(text_field(e, "description"@, true), c.description@)
            &&& text_is(text_field(e, "type"@, true), c.type_@)
            &&& list_is(list_field(e, "keywords"@), c.keywords@)
            &&& text_is(text_field(e, "home"@, false), c.home@)
            &&& list_is(list_field(e, "sources"@), c.sources@)
            &&& dependencies_are(c.dependencies@, e)
            &&& maintainers_are(c.maintainers@, e)
            &&& text_is(text_field(e, "icon"@, false), c.icon@)
            &&& text_is(text_field(e, "appVersion"@, false), c.app_version@)
            &&& flag_field(e, "deprecated"@) == Ok::<bool, DecodeFault>(c.deprecated)
            &&& list_is(list_field(e, "annotations"@), c.annotations@)
        },
        _ => false,
    }
}

/// The value under key `name` in the entries `e`.
fn lookup_field<'a>(e: &'a Vec<(String, Value)>, name: &str) -> (r: Option<&'a Value>)
    ensures
        match r {
            Some(v) => lookup(entries_view(e@), name@) == Some(v@),
            None => lookup(entries_view(e@), name@) is None,
        },
{
    let key = owned(name);
    match find_entry(e, &key) {
        Some(j) => Some(&e[j].1),
        None => None,
    }
}

/// The name of a node's kind.
fn kind_name(v: &Value) -> (r: String)
    ensures
        r@ == kind_of(v@),
{
    match v {
        Value::Null => owned("null"),
        Value::Bool(_) => owned("bool"),
        Value::Number(_) => owned("number"),
        Value::Str(_) => owned("string"),
        Value::Mapping(_) => owned("mapping"),
        Value::Sequence(_) => owned("sequence"),
    }
}

fn mismatch_error(name: &str, expected: &str, v: &Value) -> (r: DecodeError)
    ensures
        r@ == mismatch(name@, expected@, v@),
{
    DecodeError::TypeMismatch(owned(name), owned(expected), kind_name(v))
}

/// Decodes a text field.
fn decode_text(e: &Vec<(String, Value)>, name: &str, required: bool) -> (r: Result<
    String,
    DecodeError,
>)
    ensures
        r matches Ok(s) ==> text_field(entries_view(e@), name@, required) == Ok::<
            Seq<char>,
            DecodeFault,
        >(s@),
        r matches Err(f) ==> text_field(entries_view(e@), name@, required) == Err::<
            Seq<char>,
            DecodeFault,
        >(f@),
{
    match lookup_field(e, name) {
        None => if required {
            Err(DecodeError::MissingField(owned(name)))
        } else {
            Ok(String::new())
        },
        Some(Value::Str(s)) => Ok(s.clone()),
        Some(v) => Err(mismatch_error(name, "string", v)),
    }
}

/// Decodes a flag field.
fn decode_flag(e: &Vec<(String, Value)>, name: &str) -> (r: Result<bool, DecodeError>)
    ensures
        r matches Ok(b) ==> flag_field(entries_view(e@), name@) == Ok::<bool, DecodeFault>(b),
        r matches Err(f) ==> flag_field(entries_view(e@), name@) == Err::<bool, DecodeFault>(f@),
{
    match lookup_field(e, name) {
        None => Ok(false),
        Some(Value::Bool(b)) => Ok(*b),
        Some(v) => Err(mismatch_error(name, "bool", v)),
    }
}

/// Decodes a list-of-texts field.
#[verifier::loop_isolation(false)]
fn decode_list(e: &Vec<(String, Value)>, name: &str) -> (r: Result<Vec<String>, DecodeError>)
    ensures
        r matches Ok(l) ==> list_field(entries_view(e@), name@) == Ok::<
            Seq<Seq<char>>,
            DecodeFault,
        >(texts_view(l@)),
        r matches Err(f) ==> list_field(entries_view(e@), name@) == Err::<
            Seq<Seq<char>>,
            DecodeFault,
        >(f@),
{
    match lookup_field(e, name) {
        None => {
            let l: Vec<String> = Vec::new();
            assert(texts_view(l@) =~= Seq::<Seq<char>>::empty());
            Ok(l)
        },
        Some(Value::Sequence(items)) => {
            let ghost iv = crate::tree::items_view(items@);
            let mut out: Vec<String> = Vec::new();
            let mut i: usize = 0;
            assert(iv.skip(0) =~= iv);
            assert(texts_view(out@) =~= Seq::<Seq<char>>::empty());
            assert forall|rest: Seq<Seq<char>>| #![auto] texts_view(out@) + rest == rest by {
                assert(texts_view(out@) + rest =~= rest);
            }
            while i < items.len()
                invariant
                    0 <= i <= items@.len(),
                    iv == crate::tree::items_view(items@),
                    text_items(iv, name@) == match text_items(iv.skip(i as int), name@) {
                        Ok(rest) => Ok(texts_view(out@) + rest),
                        Err(f) => Err(f),
                    },
                decreases items@.len() - i,
            {
                assert(iv.skip(i as int)[0] == items@[i as int]@);
                assert(iv.skip(i as int).drop_first() =~= iv.skip(i + 1));
                match &items[i] {
                    Value::Str(s) => {
                        let ghost before = out@;
                        out.push(s.clone());
                        assert(texts_view(out@) =~= texts_view(before) + seq![s@]);
                        assert forall|rest: Seq<Seq<char>>| #![auto]
                            texts_view(before) + (seq![s@] + rest) == texts_view(out@) + rest by {
                            assert(texts_view(before) + (seq![s@] + rest) =~= texts_view(out@)
                                + rest);
                        }
                    },
                    v => {
                        assert(text_items(iv.skip(i as int), name@) == Err::<
                            Seq<Seq<char>>,
                            DecodeFault,
                        >(mismatch(name@, "string"@, v@)));
                        return Err(mismatch_error(name, "string", v));
                    },
                }
                i = i + 1;
            }
            assert(iv.skip(i as int) =~= Seq::<Tree>::empty());
            assert(texts_view(out@) + Seq::<Seq<char>>::empty() =~= texts_view(out@));
            Ok(out)
        },
        Some(v) => Err(mismatch_error(name, "sequence", v)),
    }
}

/// Decodes the required version field.
fn decode_version(e: &Vec<(String, Value)>, name: &str) -> (r: Result<Version, DecodeError>)
    ensures
        r matches Ok(v) ==> version_field(entries_view(e@), name@) matches Ok(s) && version_is(v, s),
        r matches Err(f) ==> version_field(entries_view(e@), name@) == Err::<Seq<char>, DecodeFault>(
            f@,
        ),
{
    match lookup_field(e, name) {
        None => Err(DecodeError::MissingField(owned(name))),
        Some(Value::Str(s)) => match parse_version(s.as_str()) {
            Ok(v) => Ok(v),
            Err(_) => Err(DecodeError::InvalidVersion(s.clone())),
        },
        Some(v) => Err(mismatch_error(name, "string", v)),
    }
}

/// Decodes one maintainer.
fn decode_maintainer(v: &Value) -> (r: Result<Maintainer, DecodeError>)
    ensures
        r matches Ok(m) ==> maintainer_fault(v@) is None && maintainer_is(m, v@),
        r matches Err(f) ==> maintainer_fault(v@) == Some(f@),
{
    match v {
        Value::Mapping(e) => {
            let name = match decode_text(e, "name", true) {
                Ok(x) => x,
                Err(f) => return Err(f),
            };
            let email = match decode_text(e, "email", false) {
                Ok(x) => x,
                Err(f) => return Err(f),
            };
            let url = match decode_text(e, "url", true) {
                Ok(x) => x,
                Err(f) => return Err(f),
            };
            Ok(Maintainer { name, email, url })
        },
        _ => Err(mismatch_error("maintainers", "mapping", v)),
    }
}

/// Decodes one dependency.
fn decode_dependency(v: &Value) -> (r: Result<Dependency, DecodeError>)
    ensures
        r matches Ok(d) ==> dependency_fault(v@) is None && dependency_is(d, v@),
        r matches Err(f) ==> dependency_fault(v@) == Some(f@),
{
    match v {
        Value::Mapping(e) => {
            let name = match decode_text(e, "name", true) {
                Ok(x) => x,
                Err(f) => return Err(f),
            };
            let version = match decode_version(e, "version") {
                Ok(x) => x,
                Err(f) => return Err(f),
            };
            let repository = match decode_text(e, "repository", false) {
                Ok(x) => x,
                Err(f) => return Err(f),
            };
            let condition = match decode_text(e, "condition", false) {
                Ok(x) => x,
                Err(f) => return Err(f),
            };
            let tags = match decode_list(e, "tags") {
                Ok(x) => x,
                Err(f) => return Err(f),
            };
            let import_values = match decode_list(e, "import-values") {
                Ok(x) => x,
                Err(f) => return Err(f),
            };
            let alias = match decode_text(e, "alias", false) {
                Ok(x) => x,
                Err(f) => return Err(f),
            };
            Ok(Dependency { name, version, repository, condition, tags, import_values, alias })
        },
        _ => Err(mismatch_error("dependencies", "mapping", v)),
    }
}

/// Decodes the `maintainers` field.
#[verifier::loop_isolation(false)]
fn decode_maintainers(e: &Vec<(String, Value)>) -> (r: Result<Vec<Maintainer>, DecodeError>)
    ensures
        r matches Ok(ms) ==> maintainers_field_fault(entries_view(e@)) is None && maintainers_are(
            ms@,
            entries_view(e@),
        ),
        r matches Err(f) ==> maintainers_field_fault(entries_view(e@)) == Some(f@),
{
    match lookup_field(e, "maintainers") {
        None => Ok(Vec::new()),
        Some(Value::Sequence(items)) => {
            let ghost iv = crate::tree::items_view(items@);
            let mut out: Vec<Maintainer> = Vec::new();
            let mut i: usize = 0;
            assert(iv.skip(0) =~= iv);
            while i < items.len()
                invariant
                    0 <= i <= items@.len(),
                    out@.len() == i,
                    maintainers_fault(iv) == maintainers_fault(iv.skip(i as int)),
                    forall|j: int| 0 <= j < i ==> maintainer_is(#[trigger] out@[j], iv[j]),
                decreases items@.len() - i,
            {
                assert(iv.skip(i as int)[0] == iv[i as int]);
                assert(iv.skip(i as int).drop_first() =~= iv.skip(i + 1));
                match decode_maintainer(&items[i]) {
                    Ok(m) => out.push(m),
                    Err(f) => return Err(f),
                }
                i = i + 1;
            }
            Ok(out)
        },
        Some(v) => Err(mismatch_error("maintainers", "sequence", v)),
    }
}

/// Decodes the `dependencies` field.
#[verifier::loop_isolation(false)]
fn decode_dependencies(e: &Vec<(String, Value)>) -> (r: Result<Vec<Dependency>, DecodeError>)
    ensures
        r matches Ok(ds) ==> dependencies_field_fault(entries_view(e@)) is None
            && dependencies_are(ds@, entries_view(e@)),
        r matches Err(f) ==> dependencies_field_fault(entries_view(e@)) == Some(f@),
{
    match lookup_field(e, "dependencies") {
        None => Ok(Vec::new()),
        Some(Value::Sequence(items)) => {
            let ghost iv = crate::tree::items_view(items@);
            let mut out: Vec<Dependency> = Vec::new();
            let mut i: usize = 0;
            assert(iv.skip(0) =~= iv);
            while i < items.len()
                invariant
                    0 <= i <= items@.len(),
                    out@.len() == i,
                    dependencies_fault(iv) == dependencies_fault(iv.skip(i as int)),
                    forall|j: int| 0 <= j < i ==> dependency_is(#[trigger] out@[j], iv[j]),
                decreases items@.len() - i,
            {
                assert(iv.skip(i as int)[0] == iv[i as int]);
                assert(iv.skip(i as int).drop_first() =~= iv.skip(i + 1));
                match decode_dependency(&items[i]) {
                    Ok(d) => out.push(d),
                    Err(f) => return Err(f),
                }
                i = i + 1;
            }
            Ok(out)
        },
        Some(v) => Err(mismatch_error("dependencies", "sequence", v)),
    }
}

/// Decodes a chart descriptor from a document tree. Required fields are
/// apiVersion, name, version, description and type; the others default to
/// empty or false. The first field in error decides the error.
pub fn decode_chart(t: &Value) -> (r: Result<Chart, DecodeError>)
    ensures
        r matches Ok(c) ==> chart_fault(t@) is None && chart_is(c, t@),
        r matches Err(f) ==> chart_fault(t@) == Some(f@),
{
    match t {
        Value::Mapping(e) => {
            let api_version = match decode_text(e, "apiVersion", true) {
                Ok(x) => x,
                Err(f) => return Err(f),
            };
            let name = match decode_text(e, "name", true) {
                Ok(x) => x,
                Err(f) => return Err(f),
            };
            let version = match decode_version(e, "version") {
                Ok(x) => x,
                Err(f) => return Err(f),
            };
            let kube_version = match decode_text(e, "kubeVersion", false) {
                Ok(x) => x,
                Err(f) => return Err(f),
            };
            let description = match decode_text(e, "description", true) {
                Ok(x) => x,
                Err(f) => return Err(f),
            };
            let type_ = match decode_text(e, "type", true) {
                Ok(x) => x,
                Err(f) => return Err(f),
            };
            let keywords = match decode_list(e, "keywords") {
                Ok(x) => x,
                Err(f) => return Err(f),
            };
            let home = match decode_text(e, "home", false) {
                Ok(x) => x,
                Err(f) => return Err(f),
            };
            let sources = match decode_list(e, "sources") {
                Ok(x) => x,
                Err(f) => return Err(f),
            };
            let dependencies = match decode_dependencies(e) {
                Ok(x) => x,
                Err(f) => return Err(f),
            };
            let maintainers = match decode_maintainers(e) {
                Ok(x) => x,
                Err(f) => return Err(f),
            };
            let icon = match decode_text(e, "icon", false) {
                Ok(x) => x,
                Err(f) => return Err(f),
            };
            let app_version = match decode_text(e, "appVersion", false) {
                Ok(x) => x,
                Err(f) => return Err(f),
            };
            let deprecated = match decode_flag(e, "deprecated") {
                Ok(x) => x,
                Err(f) => return Err(f),
            };
            let annotations = match decode_list(e, "annotations") {
                Ok(x) => x,
                Err(f) => return Err(f),
            };
            Ok(
                Chart {
                    api_version,
                    name,
                    version,
                    kube_version,
                    description,
                    type_,
                    keywords,
                    home,
                    sources,
                    dependencies,
                    maintainers,
                    icon,
                    app_version,
                    deprecated,
                    annotations,
                },
            )
        },
        _ => Err(mismatch_error("chart", "mapping", t)),
    }
}

/// The tree that a chart is decoded from: the base, or the override merged
/// onto the base when there is one.
pub open spec fn resolved_tree(base: Tree, overlay: Option<Tree>) -> Tree {
    match overlay {
        None => base,
        Some(o) => merge_tree(o, base),
    }
}

pub open spec fn overlay_view(overlay: Option<Value>) -> Option<Tree> {
    match overlay {
        None => None,
        Some(o) => Some(o@),
    }
}

/// Decodes a chart from a base tree and, when present, an override tree
/// merged onto it first.
pub fn chart_from_trees(base: Value, overlay: Option<Value>) -> (r: Result<Chart, DecodeError>)
    ensures
        r matches Ok(c) ==> chart_fault(resolved_tree(base@, overlay_view(overlay))) is None
            && chart_is(c, resolved_tree(base@, overlay_view(overlay))),
        r matches Err(f) ==> chart_fault(resolved_tree(base@, overlay_view(overlay))) == Some(
            f@,
        ),
{
    match overlay {
        None => decode_chart(&base),
        Some(o) => {
            let merged = merge(o, base);
            decode_chart(&merged)
        },
    }
}

/// Where no override is given, a chart decodes as its base alone would, and
/// as its base with an empty mapping merged onto it.
pub proof fn lemma_absent_override(base: Tree)
    ensures
        resolved_tree(base, None) == base,
        base is Mapping ==> resolved_tree(base, Some(Tree::Mapping(Seq::empty()))) == base,
        base is Mapping ==> chart_fault(resolved_tree(base, Some(Tree::Mapping(Seq::empty()))))
            == chart_fault(base),
{
}

} // verus!
