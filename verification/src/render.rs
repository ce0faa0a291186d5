//! Rendering a template against the node list: the generic documents that
//! come out, and their identities.
//!
//! A rendered object is kept as a generic document: the identity fields the
//! logic reads, plus the document's own text for whoever executes the plan.

use vstd::prelude::*;

use crate::api::{Interface, InterfaceView, Lease4, Lease4View, Lease6, Lease6View, Node, NodeView,
    Prefix6, Prefix6View};
use crate::crd::{DHCPTemplateSpec, ObjectRef, ObjectRefError, ObjectRefView};
use crate::text::{push_char, push_dec, spec_dec, spec_hex_digit};

verus! {

/// One rendered manifest document: its type and name metadata as plain
/// values, and its full text.
#[derive(Debug)]
pub struct Manifest {
    pub api_version: Option<String>,
    pub kind: Option<String>,
    pub namespace: Option<String>,
    pub name: Option<String>,
    pub source: String,
}

pub ghost struct ManifestView {
    pub api_version: Option<Seq<char>>,
    pub kind: Option<Seq<char>>,
    pub namespace: Option<Seq<char>>,
    pub name: Option<Seq<char>>,
    pub source: Seq<char>,
}

impl View for Manifest {
    type V = ManifestView;

    open spec fn view(&self) -> ManifestView {
        ManifestView {
            api_version: match self.api_version {
                Some(v) => Some(v@),
                None => None,
            },
            kind: match self.kind {
                Some(v) => Some(v@),
                None => None,
            },
            namespace: match self.namespace {
                Some(v) => Some(v@),
                None => None,
            },
            name: match self.name {
                Some(v) => Some(v@),
                None => None,
            },
            source: self.source@,
        }
    }
}

impl Clone for Manifest {
    fn clone(&self) -> (r: Self)
        ensures
            r@ == self@,
    {
        Manifest {
            api_version: match &self.api_version {
                Some(v) => Some(v.clone()),
                None => None,
            },
            kind: match &self.kind {
                Some(v) => Some(v.clone()),
                None => None,
            },
            namespace: match &self.namespace {
                Some(v) => Some(v.clone()),
                None => None,
            },
            name: match &self.name {
                Some(v) => Some(v.clone()),
                None => None,
            },
            source: self.source.clone(),
        }
    }
}

/// The identity of a rendered document: it must carry an apiVersion/kind
/// pair and a metadata name; the namespace is optional.
pub open spec fn spec_manifest_ref(m: ManifestView) -> Result<ObjectRefView, ObjectRefError> {
    if m.api_version is None || m.kind is None {
        Err(ObjectRefError::MissingTypes)
    } else if m.name is None {
        Err(ObjectRefError::MissingName)
    } else {
        Ok(
            ObjectRefView {
                api_version: m.api_version.unwrap(),
                kind: m.kind.unwrap(),
                namespace: m.namespace,
                name: m.name.unwrap(),
            },
        )
    }
}

impl Manifest {
    /// Extracts this document's identity, or says which identity field is
    /// missing.
    pub fn object_ref(&self) -> (r: Result<ObjectRef, ObjectRefError>)
        ensures
            match r {
                Ok(o) => spec_manifest_ref(self@) == Ok::<ObjectRefView, ObjectRefError>(o@),
                Err(e) => spec_manifest_ref(self@) == Err::<ObjectRefView, ObjectRefError>(e),
            },
    {
        match (&self.api_version, &self.kind) {
            (Some(api_version), Some(kind)) => {
                match &self.name {
                    Some(name) => Ok(
                        ObjectRef {
                            api_version: api_version.clone(),
                            kind: kind.clone(),
                            namespace: match &self.namespace {
                                Some(n) => Some(n.clone()),
                                None => None,
                            },
                            name: name.clone(),
                        },
                    ),
                    None => Err(ObjectRefError::MissingName),
                }
            },
            _ => Err(ObjectRefError::MissingTypes),
        }
    }
}


/// The JSON escape of one character inside a double-quoted string: quote
/// and backslash get a backslash, control characters become `\u00..`
/// escapes, everything else stands as it is.
pub open spec fn json_escape_char(c: char) -> Seq<char> {
    if c == '"' {
        seq!['\\', '"']
    } else if c == '\\' {
        seq!['\\', '\\']
    } else if (c as u32) < 32 {
        seq![
            '\\',
            'u',
            '0',
            '0',
            spec_hex_digit(((c as u32) / 16) as int),
            spec_hex_digit(((c as u32) % 16) as int),
        ]
    } else {
        seq![c]
    }
}

/// The JSON escape of a whole string body.
pub open spec fn json_escape(s: Seq<char>) -> Seq<char>
    decreases s.len(),
{
    if s.len() == 0 {
        Seq::empty()
    } else {
        json_escape_char(s[0]) + json_escape(s.drop_first())
    }
}

/// A JSON string: the escaped body between double quotes.
pub open spec fn json_str(s: Seq<char>) -> Seq<char> {
    seq!['"'] + json_escape(s) + seq!['"']
}

/// Pre-rendered values joined with commas.
pub open spec fn join_comma(l: Seq<Seq<char>>) -> Seq<char>
    decreases l.len(),
{
    if l.len() == 0 {
        Seq::empty()
    } else if l.len() == 1 {
        l[0]
    } else {
        l[0] + seq![','] + join_comma(l.drop_first())
    }
}

/// A JSON array of pre-rendered values.
pub open spec fn json_array(l: Seq<Seq<char>>) -> Seq<char> {
    seq!['['] + join_comma(l) + seq![']']
}

proof fn lemma_join_snoc(l: Seq<Seq<char>>, x: Seq<char>)
    ensures
        join_comma(l.push(x)) =~= if l.len() == 0 {
            x
        } else {
            join_comma(l) + seq![','] + x
        },
    decreases l.len(),
{
    let t = l.push(x);
    if l.len() == 0 {
        assert(t.len() == 1);
        assert(t[0] == x);
    } else {
        assert(t[0] == l[0]);
        assert(t.drop_first() =~= l.drop_first().push(x));
        lemma_join_snoc(l.drop_first(), x);
        if l.len() == 1 {
            assert(join_comma(l.drop_first().push(x)) =~= x) by {
                assert(l.drop_first().push(x)[0] == x);
            }
            assert(join_comma(t) =~= l[0] + seq![','] + x);
        } else {
            assert(join_comma(t) =~= l[0] + seq![','] + join_comma(l.drop_first().push(x)));
            assert(join_comma(l) + seq![','] + x =~= l[0] + seq![','] + (join_comma(
                l.drop_first(),
            ) + seq![','] + x));
            assert(l[0] + seq![','] + (join_comma(l.drop_first()) + seq![','] + x) =~= l[0]
                + seq![','] + join_comma(l.drop_first()) + seq![','] + x);
        }
    }
}

fn push_json_escaped_char(out: &mut String, c: char)
    ensures
        final(out)@ == old(out)@ + json_escape_char(c),
{
    if c == '"' {
        push_char(out, '\\');
        push_char(out, '"');
        proof {
            assert(out@ =~= old(out)@ + json_escape_char(c));
        }
    } else if c == '\\' {
        push_char(out, '\\');
        push_char(out, '\\');
        proof {
            assert(out@ =~= old(out)@ + json_escape_char(c));
        }
    } else {
        let code = c as u32;
        if code < 32 {
            push_char(out, '\\');
            push_char(out, 'u');
            push_char(out, '0');
            push_char(out, '0');
            let hi = crate::text::hex_digit((code / 16) as u64);
            push_char(out, hi);
            let lo = crate::text::hex_digit((code % 16) as u64);
            push_char(out, lo);
            proof {
                assert(out@ =~= old(out)@ + json_escape_char(c));
            }
        } else {
            push_char(out, c);
            proof {
                assert(out@ =~= old(out)@ + json_escape_char(c));
            }
        }
    }
}

/// Appends the JSON string for `s`.
pub fn push_json_str(out: &mut String, s: &str)
    ensures
        final(out)@ == old(out)@ + json_str(s@),
{
    push_char(out, '"');
    let n = s.unicode_len();
    let mut i: usize = 0;
    proof {
        assert(s@.skip(0) =~= s@);
        assert(out@ =~= old(out)@ + seq!['"']);
    }
    while i < n
        invariant
            n == s@.len(),
            i <= n,
            old(out)@ + seq!['"'] + json_escape(s@) =~= out@ + json_escape(s@.skip(i as int)),
        decreases n - i,
    {
        let c = s.get_char(i);
        proof {
            assert(s@.skip(i as int)[0] == s@[i as int]);
            assert(s@.skip(i as int).drop_first() =~= s@.skip(i as int + 1));
        }
        push_json_escaped_char(out, c);
        proof {
            assert(old(out)@ + seq!['"'] + json_escape(s@) =~= out@ + json_escape(
                s@.skip(i as int + 1),
            ));
        }
        i = i + 1;
    }
    proof {
        assert(s@.skip(n as int) =~= Seq::<char>::empty());
        assert(out@ =~= old(out)@ + seq!['"'] + json_escape(s@));
    }
    push_char(out, '"');
    proof {
        assert(out@ =~= old(out)@ + json_str(s@));
    }
}

/// Appends a JSON array of strings.
pub fn push_json_str_array(out: &mut String, items: &Vec<String>)
    ensures
        final(out)@ == old(out)@ + json_array(items@.map_values(|s: String| json_str(s@))),
{
    let ghost rendered = items@.map_values(|s: String| json_str(s@));
    push_char(out, '[');
    let mut i: usize = 0;
    proof {
        assert(rendered.take(0) =~= Seq::<Seq<char>>::empty());
        assert(out@ =~= old(out)@ + seq!['['] + join_comma(rendered.take(0)));
    }
    while i < items.len()
        invariant
            i <= items@.len(),
            rendered == items@.map_values(|s: String| json_str(s@)),
            out@ =~= old(out)@ + seq!['['] + join_comma(rendered.take(i as int)),
        decreases items@.len() - i,
    {
        if i > 0 {
            push_char(out, ',');
        }
        push_json_str(out, items[i].as_str());
        proof {
            assert(rendered[i as int] == json_str(items@[i as int]@));
            lemma_join_snoc(rendered.take(i as int), rendered[i as int]);
            assert(rendered.take(i as int).push(rendered[i as int]) =~= rendered.take(
                i as int + 1,
            ));
            assert(out@ =~= old(out)@ + seq!['['] + join_comma(rendered.take(i as int + 1)));
        }
        i = i + 1;
    }
    proof {
        assert(rendered.take(rendered.len() as int) =~= rendered);
    }
    push_char(out, ']');
    proof {
        assert(out@ =~= old(out)@ + json_array(rendered));
    }
}


/// One delegated prefix as a JSON object.
pub open spec fn json_prefix(p: Prefix6View) -> Seq<char> {
    ("{\"ip\":")@ + json_str(p.ip) + (",\"len\":")@ + spec_dec(p.len as int) + ("}")@
}

fn push_json_prefix(out: &mut String, p: &Prefix6)
    ensures
        final(out)@ == old(out)@ + json_prefix(p@),
{
    out.append("{\"ip\":");
    push_json_str(out, p.ip.as_str());
    out.append(",\"len\":");
    push_dec(out, p.len as u64);
    out.append("}");
    proof {
        assert(out@ =~= old(out)@ + json_prefix(p@));
    }
}

fn push_json_prefix_array(out: &mut String, items: &Vec<Prefix6>)
    ensures
        final(out)@ == old(out)@ + json_array(items@.map_values(|p: Prefix6| json_prefix(p@))),
{
    let ghost rendered = items@.map_values(|p: Prefix6| json_prefix(p@));
    push_char(out, '[');
    let mut i: usize = 0;
    proof {
        assert(rendered.take(0) =~= Seq::<Seq<char>>::empty());
        assert(out@ =~= old(out)@ + seq!['['] + join_comma(rendered.take(0)));
    }
    while i < items.len()
        invariant
            i <= items@.len(),
            rendered == items@.map_values(|p: Prefix6| json_prefix(p@)),
            out@ =~= old(out)@ + seq!['['] + join_comma(rendered.take(i as int)),
        decreases items@.len() - i,
    {
        if i > 0 {
            push_char(out, ',');
        }
        push_json_prefix(out, &items[i]);
        proof {
            assert(rendered[i as int] == json_prefix(items@[i as int]@));
            lemma_join_snoc(rendered.take(i as int), rendered[i as int]);
            assert(rendered.take(i as int).push(rendered[i as int]) =~= rendered.take(
                i as int + 1,
            ));
            assert(out@ =~= old(out)@ + seq!['['] + join_comma(rendered.take(i as int + 1)));
        }
        i = i + 1;
    }
    proof {
        assert(rendered.take(rendered.len() as int) =~= rendered);
    }
    push_char(out, ']');
    proof {
        assert(out@ =~= old(out)@ + json_array(rendered));
    }
}

/// An IPv4 lease as a JSON object.
pub open spec fn json_lease4(l: Lease4View) -> Seq<char> {
    ("{\"dns\":")@ + json_array(l.dns.map_values(|d: Seq<char>| json_str(d))) + (",\"domain\":")@
        + (match l.domain {
        Some(d) => json_str(d),
        None => ("null")@,
    }) + ("}")@
}

fn push_json_lease4(out: &mut String, l: &Lease4)
    ensures
        final(out)@ == old(out)@ + json_lease4(l@),
{
    out.append("{\"dns\":");
    push_json_str_array(out, &l.dns);
    proof {
        assert(l@.dns.map_values(|d: Seq<char>| json_str(d)) =~= l.dns@.map_values(
            |s: String| json_str(s@),
        ));
    }
    out.append(",\"domain\":");
    match &l.domain {
        Some(d) => push_json_str(out, d.as_str()),
        None => out.append("null"),
    }
    out.append("}");
    proof {
        assert(out@ =~= old(out)@ + json_lease4(l@));
    }
}

/// An IPv6 lease as a JSON object.
pub open spec fn json_lease6(l: Lease6View) -> Seq<char> {
    ("{\"dns\":")@ + json_array(l.dns.map_values(|d: Seq<char>| json_str(d))) + (",\"prefixes\":")@
        + json_array(l.prefixes.map_values(|p: Prefix6View| json_prefix(p))) + ("}")@
}

fn push_json_lease6(out: &mut String, l: &Lease6)
    ensures
        final(out)@ == old(out)@ + json_lease6(l@),
{
    out.append("{\"dns\":");
    push_json_str_array(out, &l.dns);
    proof {
        assert(l@.dns.map_values(|d: Seq<char>| json_str(d)) =~= l.dns@.map_values(
            |s: String| json_str(s@),
        ));
    }
    out.append(",\"prefixes\":");
    push_json_prefix_array(out, &l.prefixes);
    proof {
        assert(l@.prefixes.map_values(|p: Prefix6View| json_prefix(p)) =~= l.prefixes@.map_values(
            |p: Prefix6| json_prefix(p@),
        ));
    }
    out.append("}");
    proof {
        assert(out@ =~= old(out)@ + json_lease6(l@));
    }
}

/// One interface as a JSON object.
pub open spec fn json_interface(i: InterfaceView) -> Seq<char> {
    ("{\"name\":")@ + json_str(i.name) + (",\"lease4\":")@ + (match i.lease4 {
        Some(l) => json_lease4(l),
        None => ("null")@,
    }) + (",\"lease6\":")@ + (match i.lease6 {
        Some(l) => json_lease6(l),
        None => ("null")@,
    }) + ("}")@
}

fn push_json_interface(out: &mut String, i: &Interface)
    ensures
        final(out)@ == old(out)@ + json_interface(i@),
{
    out.append("{\"name\":");
    push_json_str(out, i.name.as_str());
    out.append(",\"lease4\":");
    match &i.lease4 {
        Some(l) => push_json_lease4(out, l),
        None => out.append("null"),
    }
    out.append(",\"lease6\":");
    match &i.lease6 {
        Some(l) => push_json_lease6(out, l),
        None => out.append("null"),
    }
    out.append("}");
    proof {
        assert(out@ =~= old(out)@ + json_interface(i@));
    }
}

fn push_json_interface_array(out: &mut String, items: &Vec<Interface>)
    ensures
        final(out)@ == old(out)@ + json_array(
            items@.map_values(|i: Interface| json_interface(i@)),
        ),
{
    let ghost rendered = items@.map_values(|i: Interface| json_interface(i@));
    push_char(out, '[');
    let mut i: usize = 0;
    proof {
        assert(rendered.take(0) =~= Seq::<Seq<char>>::empty());
        assert(out@ =~= old(out)@ + seq!['['] + join_comma(rendered.take(0)));
    }
    while i < items.len()
        invariant
            i <= items@.len(),
            rendered == items@.map_values(|x: Interface| json_interface(x@)),
            out@ =~= old(out)@ + seq!['['] + join_comma(rendered.take(i as int)),
        decreases items@.len() - i,
    {
        if i > 0 {
            push_char(out, ',');
        }
        push_json_interface(out, &items[i]);
        proof {
            assert(rendered[i as int] == json_interface(items@[i as int]@));
            lemma_join_snoc(rendered.take(i as int), rendered[i as int]);
            assert(rendered.take(i as int).push(rendered[i as int]) =~= rendered.take(
                i as int + 1,
            ));
            assert(out@ =~= old(out)@ + seq!['['] + join_comma(rendered.take(i as int + 1)));
        }
        i = i + 1;
    }
    proof {
        assert(rendered.take(rendered.len() as int) =~= rendered);
    }
    push_char(out, ']');
    proof {
        assert(out@ =~= old(out)@ + json_array(rendered));
    }
}

/// One node as a JSON object.
pub open spec fn json_node(n: NodeView) -> Seq<char> {
    ("{\"name\":")@ + json_str(n.name) + (",\"interfaces\":")@ + json_array(
        n.interfaces.map_values(|i: InterfaceView| json_interface(i)),
    ) + ("}")@
}

fn push_json_node(out: &mut String, n: &Node)
    ensures
        final(out)@ == old(out)@ + json_node(n@),
{
    out.append("{\"name\":");
    push_json_str(out, n.name.as_str());
    out.append(",\"interfaces\":");
    push_json_interface_array(out, &n.interfaces);
    proof {
        assert(n@.interfaces.map_values(|i: InterfaceView| json_interface(i))
            =~= n.interfaces@.map_values(|i: Interface| json_interface(i@)));
    }
    out.append("}");
    proof {
        assert(out@ =~= old(out)@ + json_node(n@));
    }
}

/// The template context document for a node list: a JSON object binding
/// `nodes` to the node list in order.
pub open spec fn spec_context(nodes: Seq<NodeView>) -> Seq<char> {
    ("{\"nodes\":")@ + json_array(nodes.map_values(|n: NodeView| json_node(n))) + ("}")@
}

/// Renders the template context document for a node list.
pub fn nodes_context(nodes: &Vec<Node>) -> (r: String)
    ensures
        r@ == spec_context(nodes@.map_values(|n: Node| n@)),
{
    let ghost rendered = nodes@.map_values(|n: Node| json_node(n@));
    let mut out = String::new();
    (&mut out).append("{\"nodes\":");
    push_char(&mut out, '[');
    let mut i: usize = 0;
    proof {
        assert(rendered.take(0) =~= Seq::<Seq<char>>::empty());
        assert(out@ =~= ("{\"nodes\":")@ + seq!['['] + join_comma(rendered.take(0)));
    }
    while i < nodes.len()
        invariant
            i <= nodes@.len(),
            rendered == nodes@.map_values(|n: Node| json_node(n@)),
            out@ =~= ("{\"nodes\":")@ + seq!['['] + join_comma(rendered.take(i as int)),
        decreases nodes@.len() - i,
    {
        if i > 0 {
            push_char(&mut out, ',');
        }
        push_json_node(&mut out, &nodes[i]);
        proof {
            assert(rendered[i as int] == json_node(nodes@[i as int]@));
            lemma_join_snoc(rendered.take(i as int), rendered[i as int]);
            assert(rendered.take(i as int).push(rendered[i as int]) =~= rendered.take(
                i as int + 1,
            ));
            assert(out@ =~= ("{\"nodes\":")@ + seq!['['] + join_comma(rendered.take(i as int + 1)));
        }
        i = i + 1;
    }
    proof {
        assert(rendered.take(rendered.len() as int) =~= rendered);
    }
    push_char(&mut out, ']');
    (&mut out).append("}");
    proof {
        assert(nodes@.map_values(|n: Node| n@).map_values(|n: NodeView| json_node(n)) =~= rendered);
        assert(out@ =~= spec_context(nodes@.map_values(|n: Node| n@)));
    }
    out
}


/// What the template engine produces for a template and a context document,
/// when it succeeds.
pub uninterp spec fn render_of(template: Seq<char>, context: Seq<char>) -> Option<Seq<char>>;

/// Relies on minijinja's `Environment::render_str`, called on a fresh
/// default environment: the outcome is a function of the template text and
/// the context document alone.  The context document is parsed by
/// serde_yaml and handed to the template as its variables; a context parse
/// failure or a render failure is an error.
#[verifier::external_body]
fn render_template(template: &str, context: &str) -> (r: Result<String, String>)
    ensures
        match r {
            Ok(rendered) => render_of(template@, context@) == Some(rendered@),
            Err(_) => render_of(template@, context@) is None,
        },
{
    let value: serde_yaml::Value = match serde_yaml::from_str(context) {
        Ok(value) => value,
        Err(e) => return Err(e.to_string()),
    };
    let environment = minijinja::Environment::new();
    environment
        .render_str(template, minijinja::Value::from_serialize(&value))
        .map_err(|e| e.to_string())
}

/// The documents of a rendered multi-document text, when the text parses:
/// one entry per document in order, `None` for a document without content
/// (empty or null), every other document re-emitted as its own text.
pub uninterp spec fn split_of(rendered: Seq<char>) -> Option<Seq<Option<Seq<char>>>>;

/// The view of a list of split documents.
pub open spec fn doc_views(docs: Seq<Option<String>>) -> Seq<Option<Seq<char>>> {
    docs.map_values(
        |d: Option<String>|
            match d {
                Some(t) => Some(t@),
                None => None,
            },
    )
}

/// Relies on serde_yaml's multi-document `Deserializer`: one item per
/// document in order; a document without content (empty or null)
/// deserializes to `None`; each other document is re-emitted with
/// serde_yaml's writer.
#[verifier::external_body]
fn split_documents(rendered: &str) -> (r: Result<Vec<Option<String>>, String>)
    ensures
        match r {
            Ok(docs) => split_of(rendered@) == Some(doc_views(docs@)),
            Err(_) => split_of(rendered@) is None,
        },
{
    let parsed: Result<Vec<Option<serde_yaml::Value>>, serde_yaml::Error> =
        serde_yaml::Deserializer::from_str(rendered)
        .map(<Option<serde_yaml::Value> as serde::Deserialize>::deserialize)
        .collect();
    match parsed {
        Ok(docs) => Ok(
            docs.into_iter().map(
                |d| d.map(|v| serde_yaml::to_string(&v).unwrap_or_default()),
            ).collect(),
        ),
        Err(e) => Err(e.to_string()),
    }
}

/// The identity fields of one document, when it parses: its apiVersion,
/// kind, metadata namespace and metadata name, each one where it is present
/// as a string.
pub uninterp spec fn head_of(doc: Seq<char>) -> Option<
    (Option<Seq<char>>, Option<Seq<char>>, Option<Seq<char>>, Option<Seq<char>>),
>;

/// The view of an optional string.
pub open spec fn opt_str_view(o: Option<String>) -> Option<Seq<char>> {
    match o {
        Some(s) => Some(s@),
        None => None,
    }
}

/// Relies on serde_yaml's `from_str` and the `Value` accessors: picks the
/// document's apiVersion, kind, metadata.namespace and metadata.name.
#[verifier::external_body]
fn parse_head(doc: &str) -> (r: Result<
    (Option<String>, Option<String>, Option<String>, Option<String>),
    String,
>)
    ensures
        match r {
            Ok(h) => head_of(doc@) == Some(
                (opt_str_view(h.0), opt_str_view(h.1), opt_str_view(h.2), opt_str_view(h.3)),
            ),
            Err(_) => head_of(doc@) is None,
        },
{
    let v: serde_yaml::Value = match serde_yaml::from_str(doc) {
        Ok(v) => v,
        Err(e) => return Err(e.to_string()),
    };
    let pick = |m: Option<&serde_yaml::Value>, k: &str| {
        m.and_then(|x| x.get(k)).and_then(|x| x.as_str()).map(|s| s.to_owned())
    };
    let meta = v.get("metadata");
    Ok((pick(Some(&v), "apiVersion"), pick(Some(&v), "kind"), pick(meta, "namespace"), pick(meta, "name")))
}

/// Why a template could not be rendered into manifests.
#[derive(Debug)]
pub enum TemplateError {
    /// The template engine refused the template or its context.
    Render(String),
    /// A rendered document is not usable YAML.
    Yaml(String),
}

/// The kind of a render failure, without its message.
pub ghost enum TemplateErrorKind {
    Render,
    Yaml,
}

/// The manifest one document text stands for, when its head parses.
pub open spec fn manifest_of_doc(d: Seq<char>) -> Option<ManifestView> {
    match head_of(d) {
        None => None,
        Some(h) => Some(
            ManifestView { api_version: h.0, kind: h.1, namespace: h.2, name: h.3, source: d },
        ),
    }
}

/// The manifests assembled from split documents: empty documents are
/// skipped, order is preserved, and a document whose head does not parse
/// fails the assembly.
pub open spec fn spec_assemble(docs: Seq<Option<Seq<char>>>) -> Result<
    Seq<ManifestView>,
    TemplateErrorKind,
>
    decreases docs.len(),
{
    if docs.len() == 0 {
        Ok(Seq::empty())
    } else {
        match docs[0] {
            None => spec_assemble(docs.drop_first()),
            Some(d) => match manifest_of_doc(d) {
                None => Err(TemplateErrorKind::Yaml),
                Some(m) => match spec_assemble(docs.drop_first()) {
                    Err(e) => Err(e),
                    Ok(ms) => Ok(seq![m] + ms),
                },
            },
        }
    }
}

/// What rendering a template against a node list produces: the manifests in
/// document order, or the kind of failure.
pub open spec fn spec_render(template: Seq<char>, nodes: Seq<NodeView>) -> Result<
    Seq<ManifestView>,
    TemplateErrorKind,
> {
    match render_of(template, spec_context(nodes)) {
        None => Err(TemplateErrorKind::Render),
        Some(rendered) => match split_of(rendered) {
            None => Err(TemplateErrorKind::Yaml),
            Some(docs) => spec_assemble(docs),
        },
    }
}

/// Builds the manifests from split documents: skips empty documents,
/// preserves order, and keeps each surviving document's own text; fails on
/// the first document whose head does not parse.
pub fn assemble_manifests(docs: Vec<Option<String>>) -> (r: Result<Vec<Manifest>, TemplateError>)
    ensures
        ({
            let outcome = spec_assemble(doc_views(docs@));
            match r {
                Ok(ms) => outcome == Ok::<Seq<ManifestView>, TemplateErrorKind>(
                    ms@.map_values(|m: Manifest| m@),
                ),
                Err(TemplateError::Yaml(_)) => outcome == Err::<
                    Seq<ManifestView>,
                    TemplateErrorKind,
                >(TemplateErrorKind::Yaml),
                Err(TemplateError::Render(_)) => false,
            }
        }),
{
    let ghost dv = doc_views(docs@);
    let mut out: Vec<Manifest> = Vec::new();
    let mut i: usize = 0;
    proof {
        assert(dv.skip(0) =~= dv);
    }
    while i < docs.len()
        invariant
            i <= docs@.len(),
            dv == doc_views(docs@),
            ({
                let done = out@.map_values(|m: Manifest| m@);
                match spec_assemble(dv.skip(i as int)) {
                    Ok(rest) => spec_assemble(dv) == Ok::<Seq<ManifestView>, TemplateErrorKind>(
                        done + rest,
                    ),
                    Err(e) => spec_assemble(dv) == Err::<Seq<ManifestView>, TemplateErrorKind>(e),
                }
            }),
        decreases docs@.len() - i,
    {
        proof {
            assert(dv[i as int] == (match docs@[i as int] {
                Some(t) => Some(t@),
                None => None,
            }));
            assert(dv.skip(i as int)[0] == dv[i as int]);
            assert(dv.skip(i as int).drop_first() =~= dv.skip(i as int + 1));
        }
        let ghost done0 = out@.map_values(|m: Manifest| m@);
        match &docs[i] {
            None => {},
            Some(d) => {
                match parse_head(d.as_str()) {
                    Err(e) => {
                        return Err(TemplateError::Yaml(e));
                    },
                    Ok(h) => {
                        let manifest = Manifest {
                            api_version: h.0,
                            kind: h.1,
                            namespace: h.2,
                            name: h.3,
                            source: d.clone(),
                        };
                        proof {
                            assert(manifest_of_doc(d@) == Some(manifest@));
                        }
                        out.push(manifest);
                        proof {
                            assert(out@.map_values(|m: Manifest| m@) =~= done0 + seq![
                                manifest_of_doc(d@).unwrap(),
                            ]);
                            if spec_assemble(dv.skip(i as int + 1)) is Ok {
                                let rest1 = spec_assemble(dv.skip(i as int + 1))->Ok_0;
                                assert(done0 + (seq![manifest_of_doc(d@).unwrap()] + rest1)
                                    =~= out@.map_values(|m: Manifest| m@) + rest1);
                            }
                        }
                    },
                }
            },
        }
        i = i + 1;
    }
    proof {
        assert(dv.skip(dv.len() as int) =~= Seq::<Option<Seq<char>>>::empty());
        assert(out@.map_values(|m: Manifest| m@) + Seq::<ManifestView>::empty() =~= out@.map_values(
            |m: Manifest| m@,
        ));
    }
    Ok(out)
}

impl DHCPTemplateSpec {
    /// Renders this template against the node list into the ordered list of
    /// manifest documents.  Every document of the expansion is enumerated,
    /// empty documents are skipped, order is preserved, and each surviving
    /// document carries its type and name metadata.
    pub fn render(&self, nodes: &Vec<Node>) -> (r: Result<Vec<Manifest>, TemplateError>)
        ensures
            ({
                let outcome = spec_render(self@.template, nodes@.map_values(|n: Node| n@));
                match r {
                    Ok(ms) => outcome == Ok::<Seq<ManifestView>, TemplateErrorKind>(
                        ms@.map_values(|m: Manifest| m@),
                    ),
                    Err(TemplateError::Render(_)) => outcome == Err::<
                        Seq<ManifestView>,
                        TemplateErrorKind,
                    >(TemplateErrorKind::Render),
                    Err(TemplateError::Yaml(_)) => outcome == Err::<
                        Seq<ManifestView>,
                        TemplateErrorKind,
                    >(TemplateErrorKind::Yaml),
                }
            }),
    {
        let context = nodes_context(nodes);
        let rendered = match render_template(self.template.as_str(), context.as_str()) {
            Ok(rendered) => rendered,
            Err(e) => {
                return Err(TemplateError::Render(e));
            },
        };
        let docs = match split_documents(rendered.as_str()) {
            Ok(docs) => docs,
            Err(e) => {
                return Err(TemplateError::Yaml(e));
            },
        };
        assemble_manifests(docs)
    }
}

} // verus!
