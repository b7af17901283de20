//! TOML documents.

use vstd::prelude::*;

use crate::text::chars_of;

verus! {

/// A value of a TOML document.
#[derive(Debug)]
pub enum Node {
    Text(String),
    Integer(i64),
    /// A number with a fraction, as it is written.
    Fraction(String),
    Flag(bool),
    /// A date or a time of day, as it is written.
    Moment(String),
    List(Vec<Node>),
    /// Each key once.
    Table(Vec<(String, Node)>),
}

/// What a value of a TOML document holds.
pub enum NodeView {
    Text(Seq<char>),
    Integer(i64),
    Fraction(Seq<char>),
    Flag(bool),
    Moment(Seq<char>),
    List(Seq<NodeView>),
    Table(Map<Seq<char>, NodeView>),
}

/// What a value holds.
pub open spec fn node_view(n: Node) -> NodeView
    decreases n,
{
    match n {
        Node::Text(s) => NodeView::Text(s@),
        Node::Integer(i) => NodeView::Integer(i),
        Node::Fraction(s) => NodeView::Fraction(s@),
        Node::Flag(b) => NodeView::Flag(b),
        Node::Moment(s) => NodeView::Moment(s@),
        Node::List(v) => NodeView::List(list_view(v@)),
        Node::Table(v) => NodeView::Table(table_view(v@)),
    }
}

/// What a list of values holds.
pub open spec fn list_view(s: Seq<Node>) -> Seq<NodeView>
    decreases s,
{
    if s.len() == 0 {
        Seq::empty()
    } else {
        list_view(s.drop_last()).push(node_view(s.last()))
    }
}

/// What a list of keys and values holds.
pub open spec fn table_view(s: Seq<(String, Node)>) -> Map<Seq<char>, NodeView>
    decreases s,
{
    if s.len() == 0 {
        Map::empty()
    } else {
        table_view(s.drop_last()).insert(s.last().0@, node_view(s.last().1))
    }
}

/// Every table in the value has each key once.
pub open spec fn keys_differ(n: Node) -> bool
    decreases n,
{
    match n {
        Node::List(v) => forall|i: int| 0 <= i < v@.len() ==> keys_differ(#[trigger] v@[i]),
        Node::Table(v) => {
            &&& forall|i: int, j: int| 0 <= i < j < v@.len() ==> (#[trigger] v@[i]).0@ != (#[trigger] v@[j]).0@
            &&& forall|i: int| 0 <= i < v@.len() ==> keys_differ((#[trigger] v@[i]).1)
        },
        _ => true,
    }
}

/// The number of equal quotes in a row that no text may hold to be written.
pub const QUOTE_RUN: usize = 256;

/// As many of the character stand at the end of a text.
pub open spec fn ending_run(s: Seq<char>, c: char) -> nat
    decreases s.len(),
{
    if s.len() > 0 && s.last() == c {
        ending_run(s.drop_last(), c) + 1
    } else {
        0
    }
}

/// The text holds fewer than 256 equal quotes in a row.
pub open spec fn has_short_runs(s: Seq<char>) -> bool {
    forall|n: int|
        0 <= n <= s.len() ==> ending_run(#[trigger] s.take(n), '\'') < QUOTE_RUN && ending_run(s.take(n), '"')
            < QUOTE_RUN
}

/// Every text in the value holds fewer than 256 equal quotes in a row.
pub open spec fn is_writable(n: NodeView) -> bool
    decreases n,
{
    match n {
        NodeView::Text(s) => has_short_runs(s),
        NodeView::List(v) => forall|i: int| 0 <= i < v.len() ==> is_writable(#[trigger] v[i]),
        NodeView::Table(m) => forall|k: Seq<char>| #[trigger] m.contains_key(k) ==> is_writable(m[k]),
        _ => true,
    }
}

fn runs_are_short(text: &str) -> (r: bool)
    ensures
        r == has_short_runs(text@),
{
    let chars = chars_of(text);
    let mut single: usize = 0;
    let mut double: usize = 0;
    let mut i: usize = 0;
    while i < chars.len()
        invariant
            i <= chars.len(),
            chars@ == text@,
            single == ending_run(text@.take(i as int), '\''),
            double == ending_run(text@.take(i as int), '"'),
            single < QUOTE_RUN,
            double < QUOTE_RUN,
            forall|n: int|
                0 <= n <= i ==> ending_run(#[trigger] text@.take(n), '\'') < QUOTE_RUN && ending_run(
                    text@.take(n),
                    '"',
                ) < QUOTE_RUN,
        decreases chars.len() - i,
    {
        let c: char = chars[i];
        single = if c == '\'' { single + 1 } else { 0 };
        double = if c == '"' { double + 1 } else { 0 };
        i = i + 1;
        proof {
            assert(text@.take(i as int).drop_last() =~= text@.take(i - 1));
            assert(text@.take(i as int).last() == c);
        }
        if single >= QUOTE_RUN || double >= QUOTE_RUN {
            return false;
        }
    }
    true
}

proof fn lemma_list_view(s: Seq<Node>)
    ensures
        list_view(s).len() == s.len(),
        forall|i: int| 0 <= i < s.len() ==> #[trigger] list_view(s)[i] == node_view(s[i]),
    decreases s.len(),
{
    if s.len() > 0 {
        lemma_list_view(s.drop_last());
    }
}

proof fn lemma_table_view(s: Seq<(String, Node)>)
    requires
        forall|i: int, j: int| 0 <= i < j < s.len() ==> (#[trigger] s[i]).0@ != (#[trigger] s[j]).0@,
    ensures
        forall|i: int|
            0 <= i < s.len() ==> table_view(s).contains_key((#[trigger] s[i]).0@) && table_view(s)[s[i].0@]
                == node_view(s[i].1),
        forall|k: Seq<char>| #[trigger]
            table_view(s).contains_key(k) ==> exists|i: int| 0 <= i < s.len() && (#[trigger] s[i]).0@ == k,
    decreases s.len(),
{
    if s.len() > 0 {
        let t = s.drop_last();
        assert forall|i: int, j: int| 0 <= i < j < t.len() implies (#[trigger] t[i]).0@ != (#[trigger] t[j]).0@ by {
            assert(t[i] == s[i] && t[j] == s[j]);
        }
        lemma_table_view(t);
        assert forall|i: int| 0 <= i < s.len() implies table_view(s).contains_key((#[trigger] s[i]).0@) && table_view(
            s,
        )[s[i].0@] == node_view(s[i].1) by {
            if i < t.len() {
                assert(t[i] == s[i]);
                assert(s[i].0@ != s[s.len() - 1].0@);
            }
        }
        assert forall|k: Seq<char>| #[trigger] table_view(s).contains_key(k) implies exists|i: int|
            0 <= i < s.len() && (#[trigger] s[i]).0@ == k by {
            if k == s.last().0@ {
                assert(s[s.len() - 1].0@ == k);
            } else {
                let i = choose|i: int| 0 <= i < t.len() && (#[trigger] t[i]).0@ == k;
                assert(s[i].0@ == k);
            }
        }
    }
}

proof fn lemma_list_writable(s: Seq<Node>)
    ensures
        is_writable(NodeView::List(list_view(s))) <==> forall|i: int|
            0 <= i < s.len() ==> is_writable(node_view(#[trigger] s[i])),
{
    lemma_list_view(s);
    let l = list_view(s);
    if is_writable(NodeView::List(l)) {
        let n = NodeView::List(l);
        assert(n->List_0 == l);
        assert forall|i: int| 0 <= i < s.len() implies is_writable(node_view(#[trigger] s[i])) by {
            assert(is_writable(l[i]));
        }
    }
    if forall|i: int| 0 <= i < s.len() ==> is_writable(node_view(#[trigger] s[i])) {
        assert forall|i: int| 0 <= i < l.len() implies is_writable(#[trigger] l[i]) by {
            assert(is_writable(node_view(s[i])));
        }
    }
}

proof fn lemma_table_writable(s: Seq<(String, Node)>)
    requires
        forall|i: int, j: int| 0 <= i < j < s.len() ==> (#[trigger] s[i]).0@ != (#[trigger] s[j]).0@,
    ensures
        is_writable(NodeView::Table(table_view(s))) <==> forall|i: int|
            0 <= i < s.len() ==> is_writable(node_view((#[trigger] s[i]).1)),
{
    lemma_table_view(s);
    let m = table_view(s);
    if is_writable(NodeView::Table(m)) {
        let n = NodeView::Table(m);
        assert(n->Table_0 == m);
        assert forall|i: int| 0 <= i < s.len() implies is_writable(node_view((#[trigger] s[i]).1)) by {
            assert(m.contains_key(s[i].0@));
            assert(is_writable(m[s[i].0@]));
        }
    }
    if forall|i: int| 0 <= i < s.len() ==> is_writable(node_view((#[trigger] s[i]).1)) {
        assert forall|k: Seq<char>| #[trigger] m.contains_key(k) implies is_writable(m[k]) by {
            let i = choose|i: int| 0 <= i < s.len() && (#[trigger] s[i]).0@ == k;
            assert(is_writable(node_view(s[i].1)));
        }
    }
}

impl Node {
    /// Whether every text in the value holds fewer than 256 equal quotes in a row.
    pub fn can_be_written(&self) -> (r: bool)
        requires
            keys_differ(*self),
        ensures
            r == is_writable(node_view(*self)),
        decreases *self,
    {
        match self {
            Node::Text(s) => runs_are_short(s.as_str()),
            Node::List(v) => {
                proof {
                    lemma_list_writable(v@);
                }
                let mut i: usize = 0;
                while i < v.len()
                    invariant
                        i <= v.len(),
                        *self == Node::List(*v),
                        keys_differ(*self),
                        is_writable(node_view(*self)) <==> forall|j: int|
                            0 <= j < v@.len() ==> is_writable(node_view(#[trigger] v@[j])),
                        forall|j: int| 0 <= j < i ==> is_writable(node_view(#[trigger] v@[j])),
                    decreases v.len() - i,
                {
                    if !v[i].can_be_written() {
                        return false;
                    }
                    i = i + 1;
                }
                true
            },
            Node::Table(v) => {
                proof {
                    lemma_table_writable(v@);
                }
                let mut i: usize = 0;
                while i < v.len()
                    invariant
                        i <= v.len(),
                        *self == Node::Table(*v),
                        keys_differ(*self),
                        is_writable(node_view(*self)) <==> forall|j: int|
                            0 <= j < v@.len() ==> is_writable(node_view((#[trigger] v@[j]).1)),
                        forall|j: int| 0 <= j < i ==> is_writable(node_view((#[trigger] v@[j]).1)),
                    decreases v.len() - i,
                {
                    if !v[i].1.can_be_written() {
                        return false;
                    }
                    i = i + 1;
                }
                true
            },
            _ => true,
        }
    }
}

/// A TOML document.
#[verifier::external_type_specification]
#[verifier::external_body]
pub struct ExTomlValue(toml::Value);

/// What a document holds.
pub uninterp spec fn node_in(doc: toml::Value) -> NodeView;

/// Every date and time in the document is one that a text can hold.
pub uninterp spec fn has_real_dates(doc: toml::Value) -> bool;

/// What the document in a text holds, or `None` where the text is no TOML.
pub uninterp spec fn toml_document(text: Seq<char>) -> Option<NodeView>;

/// The text in which a document is written, or `None` where it is not.
pub uninterp spec fn toml_written(doc: NodeView) -> Option<Seq<char>>;

/// Parsing a text as `toml::Value` succeeds or fails depending on the text alone,
/// and so does what the document holds. Its dates come out of the text.
#[verifier::external_body]
pub(crate) fn toml_parse(text: &str) -> (r: Option<toml::Value>)
    ensures
        match r {
            Some(doc) => toml_document(text@) == Some(node_in(doc)) && has_real_dates(doc),
            None => toml_document(text@) is None,
        },
{
    text.parse::<toml::Value>().ok()
}

/// Turns a `toml::Value` into plain values. Its tables are maps, so each key occurs
/// once. A number with a fraction, a date or a time becomes the text in which
/// `toml::Value` shows it.
#[verifier::external_body]
pub(crate) fn node_of(value: &toml::Value) -> (n: Node)
    requires
        has_real_dates(*value),
    ensures
        node_view(n) == node_in(*value),
        keys_differ(n),
{
    match value {
        toml::Value::String(s) => Node::Text(s.clone()),
        toml::Value::Integer(i) => Node::Integer(*i),
        toml::Value::Float(_) => Node::Fraction(value.to_string()),
        toml::Value::Boolean(b) => Node::Flag(*b),
        toml::Value::Datetime(_) => Node::Moment(value.to_string()),
        toml::Value::Array(a) => Node::List(a.iter().map(node_of).collect()),
        toml::Value::Table(t) => Node::Table(t.iter().map(|(k, v)| (k.clone(), node_of(v))).collect()),
    }
}

/// The document has a table under the name at its top.
pub open spec fn has_section(doc: NodeView, section: Seq<char>) -> bool {
    doc is Table && doc->Table_0.contains_key(section) && doc->Table_0[section] is Table
}

/// The fields of the table under the name.
pub open spec fn section_of(doc: NodeView, section: Seq<char>) -> Map<Seq<char>, NodeView> {
    doc->Table_0[section]->Table_0
}

/// The document with the given fields in the table under the name.
pub open spec fn with_section(doc: NodeView, section: Seq<char>, fields: Map<Seq<char>, NodeView>) -> NodeView {
    NodeView::Table(doc->Table_0.insert(section, NodeView::Table(fields)))
}

/// `toml::Value::get` finds the value under a name at the top of a document, and
/// `toml::Value::as_table` tells whether it is a table.
#[verifier::external_body]
pub(crate) fn toml_has_section(doc: &toml::Value, section: &str) -> (r: bool)
    ensures
        r == has_section(node_in(*doc), section@),
{
    doc.get(section).and_then(|v| v.as_table()).is_some()
}

/// A value for a field.
pub enum FieldValue<'a> {
    Flag(bool),
    Text(&'a str),
}

/// What a field with the given value holds.
pub open spec fn field_node(value: FieldValue) -> NodeView {
    match value {
        FieldValue::Flag(b) => NodeView::Flag(b),
        FieldValue::Text(t) => NodeView::Text(t@),
    }
}

/// `insert` on the table under a name puts a value into the field, in place of the
/// one before, and changes nothing else. The value is no date.
#[verifier::external_body]
pub(crate) fn toml_insert(doc: &mut toml::Value, section: &str, key: &str, value: FieldValue)
    requires
        has_section(node_in(*old(doc)), section@),
    ensures
        node_in(*final(doc)) == with_section(
            node_in(*old(doc)),
            section@,
            section_of(node_in(*old(doc)), section@).insert(key@, field_node(value)),
        ),
        has_real_dates(*old(doc)) ==> has_real_dates(*final(doc)),
{
    let value = match value {
        FieldValue::Flag(b) => toml::Value::Boolean(b),
        FieldValue::Text(t) => toml::Value::String(t.to_string()),
    };
    doc.get_mut(section).and_then(|v| v.as_table_mut()).unwrap().insert(key.to_string(), value);
}

/// The key under which the crate `toml` keeps dates to itself.
pub open spec fn date_key() -> Seq<char> {
    "$__toml_private_datetime"@
}

/// The depth up to which a document is read back from its text.
pub const READ_BACK_DEPTH: usize = 64;

/// At most `depth` lists and tables stand in each other, and no key is the one for dates.
pub open spec fn is_regular(n: NodeView, depth: nat) -> bool
    decreases depth,
{
    match n {
        NodeView::List(v) => depth > 0 && forall|i: int|
            0 <= i < v.len() ==> is_regular(#[trigger] v[i], (depth - 1) as nat),
        NodeView::Table(m) => depth > 0 && forall|k: Seq<char>| #[trigger]
            m.contains_key(k) ==> k != date_key() && is_regular(m[k], (depth - 1) as nat),
        _ => true,
    }
}

/// The document is one that is read back from its text: a table, and regular up to the
/// depth that the parser takes.
pub open spec fn reads_back(doc: NodeView) -> bool {
    doc is Table && is_regular(doc, READ_BACK_DEPTH as nat)
}

/// `toml::to_string_pretty` writes a document that is a table; the text depends on what
/// the document holds alone. A regular document is read back from its text: the parser
/// refuses lists and tables that stand too deep in each other, and takes a table that
/// begins with the key for dates for a date. The document has no text with 256 equal quotes
/// in a row, which would exceed a counter of the writer, and no date that a text cannot
/// hold.
#[verifier::external_body]
pub(crate) fn toml_render(doc: &toml::Value) -> (r: Option<String>)
    requires
        is_writable(node_in(*doc)),
        has_real_dates(*doc),
    ensures
        crate::git_config::opt_text(r) == toml_written(node_in(*doc)),
        node_in(*doc) is Table ==> r is Some,
        reads_back(node_in(*doc)) ==> toml_document(r->0@) == Some(node_in(*doc)),
{
    toml::to_string_pretty(doc).ok()
}

} // verus!
