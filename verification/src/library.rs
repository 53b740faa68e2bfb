//! Native library manifests: a JSON text that names a library, the shared
//! object that holds it, and the functions ("binds") that it offers.
use crate::parser::tokens::{copy_names, names_view};
use vstd::prelude::*;

verus! {

/// A function that a native library offers: its name, its parameter names
/// and the symbol it is bound to in the shared object.
#[derive(Debug)]
pub struct Bind {
    pub name: String,
    pub args: Vec<String>,
    pub bound_symbol: String,
}

/// A loaded library description.
#[derive(Debug)]
pub struct Library {
    pub name: String,
    pub static_loc: String,
    pub binds: Vec<Bind>,
}

/// Why a library could not be loaded. Loading a library panics in both
/// cases and the program ends; the library hands the variant back and the
/// driver panics with it.
#[derive(Debug, PartialEq, Eq)]
pub enum LibError {
    /// The manifest is not JSON.
    BadManifest,
    /// The shared object that the manifest names does not exist.
    MissingStaticObject(String),
}

/// A parsed JSON value, as the library reads it: the text that the `json`
/// crate's `Display` writes for the value, and its entries (in order) where
/// it is an object or its members where it is an array.
#[derive(Debug)]
pub struct JsonNode {
    pub text: String,
    pub shape: JsonShape,
}

/// What a JSON value holds besides its text.
#[derive(Debug)]
pub enum JsonShape {
    Object(Vec<(String, JsonNode)>),
    Array(Vec<JsonNode>),
    Other,
}

pub struct JsonNodeV {
    pub text: Seq<char>,
    pub shape: JsonShapeV,
}

pub enum JsonShapeV {
    Object(Seq<(Seq<char>, JsonNodeV)>),
    Array(Seq<JsonNodeV>),
    Other,
}

pub open spec fn node_view(n: JsonNode) -> JsonNodeV
    decreases n,
{
    JsonNodeV { text: n.text@, shape: shape_view(n.shape) }
}

pub open spec fn shape_view(s: JsonShape) -> JsonShapeV
    decreases s,
{
    match s {
        JsonShape::Object(e) => JsonShapeV::Object(entries_view(e@)),
        JsonShape::Array(a) => JsonShapeV::Array(members_view(a@)),
        JsonShape::Other => JsonShapeV::Other,
    }
}

pub open spec fn entries_view(e: Seq<(String, JsonNode)>) -> Seq<(Seq<char>, JsonNodeV)>
    decreases e,
{
    if e.len() == 0 {
        Seq::empty()
    } else {
        entries_view(e.drop_last()).push((e.last().0@, node_view(e.last().1)))
    }
}

pub open spec fn members_view(a: Seq<JsonNode>) -> Seq<JsonNodeV>
    decreases a,
{
    if a.len() == 0 {
        Seq::empty()
    } else {
        members_view(a.drop_last()).push(node_view(a.last()))
    }
}

pub open spec fn tree_view(r: Option<JsonNode>) -> Option<JsonNodeV> {
    match r {
        Some(n) => Some(node_view(n)),
        None => None,
    }
}

/// The tree of the value that `json::parse` reads from a text, or `None`
/// where the text is not JSON. It depends on the text alone.
pub uninterp spec fn json_tree(raw: Seq<char>) -> Option<JsonNodeV>;

#[verifier::external_type_specification]
#[verifier::external_body]
pub struct ExJsonValue(json::JsonValue);

/// `json::parse` of the `json` crate, with the value it gives converted into
/// the library's tree. The contract only names the result: it depends on
/// the text alone.
#[verifier::external_body]
fn parse_json(raw: &str) -> (r: Option<JsonNode>)
    ensures
        tree_view(r) == json_tree(raw@),
{
    json::parse(raw).ok().map(|v| json_node(&v))
}

/// Converts a value of the `json` crate into the library's tree, one node
/// for each value: the text its `Display` writes, the entries of an object
/// in the object's order (`JsonValue::entries`), the members of an array
/// (`JsonValue::members`). It is the conversion half of `parse_json`, kept
/// apart because it calls itself for the members.
#[verifier::external_body]
fn json_node(v: &json::JsonValue) -> JsonNode {
    let shape = match v {
        json::JsonValue::Object(_) => JsonShape::Object(v.entries().map(|(k, c)| (k.to_string(), json_node(c))).collect()),
        json::JsonValue::Array(_) => JsonShape::Array(v.members().map(json_node).collect()),
        _ => JsonShape::Other,
    };
    JsonNode { text: v.to_string(), shape }
}

/// The value that `json` gives for a missing field: `null`.
pub open spec fn null_node() -> JsonNodeV {
    JsonNodeV { text: "null"@, shape: JsonShapeV::Other }
}

/// The first entry of `e` named `key`.
pub open spec fn first_entry(e: Seq<(Seq<char>, JsonNodeV)>, key: Seq<char>) -> Option<JsonNodeV>
    decreases e.len(),
{
    if e.len() == 0 {
        None
    } else {
        match first_entry(e.drop_last(), key) {
            Some(x) => Some(x),
            None => if e.last().0 == key {
                Some(e.last().1)
            } else {
                None
            },
        }
    }
}

/// `n[key]`: the field of an object, or `null` where there is none.
pub open spec fn field(n: JsonNodeV, key: Seq<char>) -> JsonNodeV {
    match n.shape {
        JsonShapeV::Object(e) => match first_entry(e, key) {
            Some(x) => x,
            None => null_node(),
        },
        _ => null_node(),
    }
}

/// `n.entries()`: the entries of an object, nothing for another value.
pub open spec fn entries_of(n: JsonNodeV) -> Seq<(Seq<char>, JsonNodeV)> {
    match n.shape {
        JsonShapeV::Object(e) => e,
        _ => Seq::empty(),
    }
}

/// The texts of `n.members()`: those of an array's members, nothing for
/// another value.
pub open spec fn member_texts(n: JsonNodeV) -> Seq<Seq<char>> {
    match n.shape {
        JsonShapeV::Array(a) => a.map_values(|x: JsonNodeV| x.text),
        _ => Seq::empty(),
    }
}

/// A manifest as text: `name`, `static_loc`, and for each entry of `binds`
/// its key, the texts of its `args` members and the text of its
/// `bound_symbol`.
pub type ManifestV = (Seq<char>, Seq<char>, Seq<(Seq<char>, Seq<Seq<char>>, Seq<char>)>);

/// The bind that an entry of `binds` describes.
pub open spec fn bind_of(e: (Seq<char>, JsonNodeV)) -> (Seq<char>, Seq<Seq<char>>, Seq<char>) {
    (e.0, member_texts(field(e.1, "args"@)), field(e.1, "bound_symbol"@).text)
}

/// The manifest that a parsed value describes.
pub open spec fn manifest_of(root: JsonNodeV) -> ManifestV {
    (
        field(root, "name"@).text,
        field(root, "static_loc"@).text,
        entries_of(field(root, "binds"@)).map_values(|e: (Seq<char>, JsonNodeV)| bind_of(e)),
    )
}

/// The binds of a manifest's entries, in order: each named by its key.
pub open spec fn binds_view(b: Seq<Bind>) -> Seq<(Seq<char>, Seq<Seq<char>>, Seq<char>)> {
    b.map_values(|x: Bind| (x.name@, names_view(x.args@), x.bound_symbol@))
}

/// A manifest read from its text, before its shared object is looked for.
#[derive(Debug)]
pub struct Manifest {
    pub name: String,
    pub static_loc: String,
    pub binds: Vec<Bind>,
}

/// `n[key]`, as a reference into the tree (`None` stands for `null`).
fn lookup<'a>(n: &'a JsonNode, key: &str) -> (r: Option<&'a JsonNode>)
    ensures
        field(node_view(*n), key@) == match r {
            Some(x) => node_view(*x),
            None => null_node(),
        },
{
    match &n.shape {
        JsonShape::Object(e) => {
            let k = String::from_str(key);
            let mut i: usize = 0;
            while i < e.len()
                invariant
                    i <= e.len(),
                    k@ == key@,
                    n.shape == JsonShape::Object(*e),
                    first_entry(entries_view(e@).take(i as int), key@) is None,
                decreases e.len() - i,
            {
                proof {
                    lemma_entries_view(e@, i as int);
                    assert(entries_view(e@).take(i + 1).drop_last() =~= entries_view(e@).take(i as int));
                }
                if e[i].0 == k {
                    proof {
                        let ev = entries_view(e@);
                        assert(ev.take(i + 1).last() == ev[i as int]);
                        assert(first_entry(ev.take(i + 1), key@) == Some(node_view(e@[i as int].1)));
                        lemma_first_entry_prefix(ev, key@, i + 1);
                        assert(shape_view(n.shape) == JsonShapeV::Object(ev));
                        assert(node_view(*n).shape == JsonShapeV::Object(ev));
                    }
                    return Some(&e[i].1);
                }
                i += 1;
            }
            proof {
                lemma_entries_view(e@, 0);
                assert(entries_view(e@).take(e.len() as int) =~= entries_view(e@));
            }
            None
        },
        _ => None,
    }
}

proof fn lemma_entries_view(e: Seq<(String, JsonNode)>, i: int)
    ensures
        entries_view(e).len() == e.len(),
        0 <= i < e.len() ==> entries_view(e)[i] == (e[i].0@, node_view(e[i].1)),
    decreases e.len(),
{
    if e.len() > 0 {
        lemma_entries_view(e.drop_last(), i);
        if 0 <= i < e.len() - 1 {
            assert(e.drop_last()[i] == e[i]);
        }
    }
}

proof fn lemma_members_view(a: Seq<JsonNode>, i: int)
    ensures
        members_view(a).len() == a.len(),
        0 <= i < a.len() ==> members_view(a)[i] == node_view(a[i]),
    decreases a.len(),
{
    if a.len() > 0 {
        lemma_members_view(a.drop_last(), i);
        if 0 <= i < a.len() - 1 {
            assert(a.drop_last()[i] == a[i]);
        }
    }
}

/// A match in the first `k` entries is the first match of all of them.
proof fn lemma_first_entry_prefix(e: Seq<(Seq<char>, JsonNodeV)>, key: Seq<char>, k: int)
    requires
        0 <= k <= e.len(),
        first_entry(e.take(k), key) is Some,
    ensures
        first_entry(e, key) == first_entry(e.take(k), key),
    decreases e.len(),
{
    if k < e.len() {
        assert(e.drop_last().take(k) =~= e.take(k));
        lemma_first_entry_prefix(e.drop_last(), key, k);
    } else {
        assert(e.take(k) =~= e);
    }
}

/// The text of `n[key]`.
fn field_text(n: &JsonNode, key: &str) -> (r: String)
    ensures
        r@ == field(node_view(*n), key@).text,
{
    match lookup(n, key) {
        Some(x) => x.text.clone(),
        None => String::from_str("null"),
    }
}

/// The texts of `n.members()`.
fn member_strings(n: Option<&JsonNode>) -> (r: Vec<String>)
    ensures
        names_view(r@) == match n {
            Some(x) => member_texts(node_view(*x)),
            None => member_texts(null_node()),
        },
{
    let mut out: Vec<String> = Vec::new();
    match n {
        Some(x) => match &x.shape {
            JsonShape::Array(a) => {
                let ghost mv = members_view(a@);
                proof {
                    lemma_members_view(a@, 0);
                }
                let mut i: usize = 0;
                while i < a.len()
                    invariant
                        i <= a.len(),
                        mv == members_view(a@),
                        mv.len() == a@.len(),
                        names_view(out@) == mv.map_values(|y: JsonNodeV| y.text).take(i as int),
                    decreases a.len() - i,
                {
                    proof {
                        lemma_members_view(a@, i as int);
                    }
                    let t = a[i].text.clone();
                    proof {
                        crate::parser::tokens::lemma_names_view_push(out@, t);
                        assert(mv.map_values(|y: JsonNodeV| y.text).take(i + 1) =~= mv.map_values(
                            |y: JsonNodeV| y.text,
                        ).take(i as int).push(t@));
                    }
                    out.push(t);
                    i += 1;
                }
                assert(mv.map_values(|y: JsonNodeV| y.text).take(a.len() as int) =~= mv.map_values(
                    |y: JsonNodeV| y.text,
                ));
            },
            _ => {
                assert(names_view(out@) =~= Seq::<Seq<char>>::empty());
            },
        },
        None => {
            assert(names_view(out@) =~= Seq::<Seq<char>>::empty());
        },
    }
    out
}

/// The manifest that a parsed value describes: its `name` and `static_loc`
/// fields as text, and one bind for each entry of its `binds` object, named
/// by the entry's key, with the texts of the entry's `args` members and its
/// `bound_symbol` as text. A field that is missing reads as `null`.
pub fn manifest_from(root: &JsonNode) -> (m: Manifest)
    ensures
        m.name@ == manifest_of(node_view(*root)).0,
        m.static_loc@ == manifest_of(node_view(*root)).1,
        binds_view(m.binds@) == manifest_of(node_view(*root)).2,
{
    let name = field_text(root, "name");
    let static_loc = field_text(root, "static_loc");
    let binds_node = lookup(root, "binds");
    let ghost bn = field(node_view(*root), "binds"@);
    let ghost want = entries_of(bn).map_values(|e: (Seq<char>, JsonNodeV)| bind_of(e));
    let mut binds: Vec<Bind> = Vec::new();
    match binds_node {
        Some(b) => match &b.shape {
            JsonShape::Object(e) => {
                proof {
                    lemma_entries_view(e@, 0);
                }
                let mut i: usize = 0;
                while i < e.len()
                    invariant
                        i <= e.len(),
                        bn == node_view(*b),
                        b.shape == JsonShape::Object(*e),
                        entries_view(e@).len() == e@.len(),
                        want == entries_of(bn).map_values(|x: (Seq<char>, JsonNodeV)| bind_of(x)),
                        binds_view(binds@) == want.take(i as int),
                    decreases e.len() - i,
                {
                    proof {
                        lemma_entries_view(e@, i as int);
                    }
                    let entry = &e[i];
                    let args = member_strings(lookup(&entry.1, "args"));
                    let bound_symbol = field_text(&entry.1, "bound_symbol");
                    let bd = Bind { name: entry.0.clone(), args, bound_symbol };
                    proof {
                        assert(want[i as int] == bind_of(entries_view(e@)[i as int]));
                        assert(binds_view(binds@.push(bd)) =~= binds_view(binds@).push(want[i as int]));
                        assert(want.take(i + 1) =~= want.take(i as int).push(want[i as int]));
                    }
                    binds.push(bd);
                    i += 1;
                }
                assert(want.take(e.len() as int) =~= want);
            },
            _ => {
                assert(binds_view(binds@) =~= want);
            },
        },
        None => {
            assert(binds_view(binds@) =~= want);
        },
    }
    Manifest { name, static_loc, binds }
}

/// Reads a manifest's text. Text that is not JSON gives `BadManifest`, the
/// point where loading panics and the program ends.
pub fn read_manifest(raw: &str) -> (r: Result<Manifest, LibError>)
    ensures
        match json_tree(raw@) {
            None => r == Err::<Manifest, LibError>(LibError::BadManifest),
            Some(root) => r matches Ok(m) && m.name@ == manifest_of(root).0 && m.static_loc@
                == manifest_of(root).1 && binds_view(m.binds@) == manifest_of(root).2,
        },
{
    match parse_json(raw) {
        None => Err(LibError::BadManifest),
        Some(root) => Ok(manifest_from(&root)),
    }
}

/// The library a manifest describes, where its shared object exists. Where
/// it does not, `MissingStaticObject` is the panic "could not find static
/// object" that ends the program.
pub fn load_lib(manifest: Manifest, static_found: bool) -> (r: Result<Library, LibError>)
    ensures
        static_found ==> (r matches Ok(l) && l.name == manifest.name && l.static_loc
            == manifest.static_loc && l.binds == manifest.binds),
        !static_found ==> r == Err::<Library, LibError>(
            LibError::MissingStaticObject(manifest.static_loc),
        ),
{
    if static_found {
        Ok(Library { name: manifest.name, static_loc: manifest.static_loc, binds: manifest.binds })
    } else {
        Err(LibError::MissingStaticObject(manifest.static_loc))
    }
}

} // verus!
