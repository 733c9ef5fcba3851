//! The generic XML tree: events pulled from the `xml` crate's reader and the
//! recursive builder that turns an event sequence into a tree of nodes.

use crate::tmx::TmxError;
use vstd::prelude::*;

verus! {

/// One event of the XML stream, as the tree builder consumes it.
#[derive(Debug, PartialEq, Eq)]
pub enum TmxEvent {
    /// An element opens: its local name and its attributes, each an
    /// attribute's local name paired with its value.
    Start { name: String, attrs: Vec<(String, String)> },
    /// The current element closes.
    End,
    /// A run of character data inside the current element.
    Text(String),
    /// The end of the document.
    Eof,
    /// The event source reported an error.
    Fault,
    /// Any other event; the builder ignores it.
    Skip,
}

/// A node of the generic tree: a name, an attribute list in document order,
/// the child nodes in document order, and the character data accumulated
/// directly under this node.
#[derive(Debug, PartialEq, Eq)]
pub struct Node {
    pub name: String,
    pub attributes: Vec<(String, String)>,
    pub children: Vec<Node>,
    pub content: String,
}

/// The mathematical model of a node.
#[verifier::ext_equal]
pub struct NodeView {
    pub name: Seq<char>,
    pub attrs: Seq<(Seq<char>, Seq<char>)>,
    pub children: Seq<NodeView>,
    pub content: Seq<char>,
}

/// The attribute list as a sequence of name/value character sequences.
pub open spec fn attrs_view(attrs: Seq<(String, String)>) -> Seq<(Seq<char>, Seq<char>)> {
    attrs.map_values(|p: (String, String)| (p.0@, p.1@))
}

impl Node {
    pub open spec fn deep(self) -> NodeView
        decreases self,
    {
        NodeView {
            name: self.name@,
            attrs: attrs_view(self.attributes@),
            children: deep_children(self.children@),
            content: self.content@,
        }
    }
}

/// The models of a sequence of nodes, in order.
pub open spec fn deep_children(s: Seq<Node>) -> Seq<NodeView>
    decreases s,
{
    if s.len() == 0 {
        Seq::empty()
    } else {
        deep_children(s.drop_last()).push(s.last().deep())
    }
}

impl View for Node {
    type V = NodeView;

    open spec fn view(&self) -> NodeView {
        self.deep()
    }
}

/// A node list and its model have the same length.
pub proof fn lemma_deep_children_len(s: Seq<Node>)
    ensures
        deep_children(s).len() == s.len(),
    decreases s,
{
    if s.len() > 0 {
        lemma_deep_children_len(s.drop_last());
    }
}

/// The value of the last attribute with the given name, if any: a later
/// attribute with the same name shadows an earlier one, as inserting into a
/// name-keyed mapping would.
pub open spec fn attr_last(attrs: Seq<(String, String)>, key: Seq<char>) -> Option<Seq<char>>
    decreases attrs.len(),
{
    if attrs.len() == 0 {
        None
    } else if attrs.last().0@ == key {
        Some(attrs.last().1@)
    } else {
        attr_last(attrs.drop_last(), key)
    }
}

pub open spec fn node_attr(n: Node, key: Seq<char>) -> Option<Seq<char>> {
    attr_last(n.attributes@, key)
}

/// Looks an attribute of `n` up by name; the last occurrence wins.
pub fn find_attr(n: &Node, key: &str) -> (r: Option<String>)
    ensures
        match r {
            Some(s) => node_attr(*n, key@) == Some(s@),
            None => node_attr(*n, key@) == None::<Seq<char>>,
        },
{
    let keys: String = key.to_owned();
    let mut found: Option<String> = None;
    let mut i: usize = 0;
    while i < n.attributes.len()
        invariant
            i <= n.attributes@.len(),
            keys@ == key@,
            match found {
                Some(s) => attr_last(n.attributes@.subrange(0, i as int), key@) == Some(s@),
                None => attr_last(n.attributes@.subrange(0, i as int), key@) == None::<
                    Seq<char>,
                >,
            },
        decreases n.attributes@.len() - i,
    {
        let p = &n.attributes[i];
        proof {
            assert(n.attributes@.subrange(0, i + 1).drop_last() =~= n.attributes@.subrange(
                0,
                i as int,
            ));
            assert(n.attributes@.subrange(0, i + 1).last() == n.attributes@[i as int]);
        }
        if p.0 == keys {
            found = Some(p.1.clone());
        }
        i += 1;
    }
    proof {
        assert(n.attributes@.subrange(0, n.attributes@.len() as int) =~= n.attributes@);
    }
    found
}

/// The node that a `Start` event opens: named, attributed, still empty.
pub open spec fn start_view(name: String, attrs: Vec<(String, String)>) -> NodeView {
    NodeView {
        name: name@,
        attrs: attrs_view(attrs@),
        children: Seq::empty(),
        content: Seq::empty(),
    }
}

/// What the tree builder does with the events from `pos` on, given the node
/// `cur` built so far at the current level: a `Start` event opens a child
/// that is built recursively and then appended; a `Text` event appends to
/// the content; `End`, `Eof` and `Fault` close the current level; running
/// out of events closes every level. Returns the finished node and the
/// position after the events consumed. `fuel` bounds the recursion; any
/// `fuel >= events.len() - pos` gives the same result.
pub open spec fn build(cur: NodeView, events: Seq<TmxEvent>, pos: int, fuel: nat) -> (
    NodeView,
    int,
)
    decreases fuel,
{
    if pos < 0 || pos >= events.len() || fuel == 0 {
        (cur, pos)
    } else {
        match events[pos] {
            TmxEvent::End => (cur, pos + 1),
            TmxEvent::Eof => (cur, pos + 1),
            TmxEvent::Fault => (cur, pos + 1),
            TmxEvent::Text(t) => build(
                NodeView { content: cur.content + t@, ..cur },
                events,
                pos + 1,
                (fuel - 1) as nat,
            ),
            TmxEvent::Skip => build(cur, events, pos + 1, (fuel - 1) as nat),
            TmxEvent::Start { name, attrs } => {
                let r = build(start_view(name, attrs), events, pos + 1, (fuel - 1) as nat);
                let p3 = if r.1 < pos + 1 {
                    pos + 1
                } else {
                    r.1
                };
                build(
                    NodeView { children: cur.children.push(r.0), ..cur },
                    events,
                    p3,
                    (fuel - 1) as nat,
                )
            },
        }
    }
}

/// `build` with fuel enough for the events that remain.
pub open spec fn build_at(cur: NodeView, events: Seq<TmxEvent>, pos: int) -> (NodeView, int) {
    build(cur, events, pos, (events.len() - pos + 1) as nat)
}

/// `build` only moves forward, and never past the end of the events.
proof fn lemma_build_pos(cur: NodeView, events: Seq<TmxEvent>, pos: int, fuel: nat)
    requires
        0 <= pos <= events.len(),
    ensures
        pos <= build(cur, events, pos, fuel).1 <= events.len(),
    decreases fuel,
{
    if pos < events.len() && fuel > 0 {
        match events[pos] {
            TmxEvent::Text(t) => {
                lemma_build_pos(
                    NodeView { content: cur.content + t@, ..cur },
                    events,
                    pos + 1,
                    (fuel - 1) as nat,
                );
            },
            TmxEvent::Skip => {
                lemma_build_pos(cur, events, pos + 1, (fuel - 1) as nat);
            },
            TmxEvent::Start { name, attrs } => {
                let r = build(start_view(name, attrs), events, pos + 1, (fuel - 1) as nat);
                lemma_build_pos(start_view(name, attrs), events, pos + 1, (fuel - 1) as nat);
                let p3 = if r.1 < pos + 1 {
                    pos + 1
                } else {
                    r.1
                };
                lemma_build_pos(
                    NodeView { children: cur.children.push(r.0), ..cur },
                    events,
                    p3,
                    (fuel - 1) as nat,
                );
            },
            _ => {},
        }
    }
}

/// Any fuel at least the number of remaining events gives the same result.
proof fn lemma_build_fuel(cur: NodeView, events: Seq<TmxEvent>, pos: int, f1: nat, f2: nat)
    requires
        0 <= pos <= events.len(),
        f1 >= events.len() - pos,
        f2 >= events.len() - pos,
    ensures
        build(cur, events, pos, f1) == build(cur, events, pos, f2),
    decreases f1,
{
    if pos < events.len() {
        match events[pos] {
            TmxEvent::Text(t) => {
                lemma_build_fuel(
                    NodeView { content: cur.content + t@, ..cur },
                    events,
                    pos + 1,
                    (f1 - 1) as nat,
                    (f2 - 1) as nat,
                );
            },
            TmxEvent::Skip => {
                lemma_build_fuel(cur, events, pos + 1, (f1 - 1) as nat, (f2 - 1) as nat);
            },
            TmxEvent::Start { name, attrs } => {
                lemma_build_fuel(
                    start_view(name, attrs),
                    events,
                    pos + 1,
                    (f1 - 1) as nat,
                    (f2 - 1) as nat,
                );
                lemma_build_pos(start_view(name, attrs), events, pos + 1, (f1 - 1) as nat);
                let r = build(start_view(name, attrs), events, pos + 1, (f1 - 1) as nat);
                let p3 = if r.1 < pos + 1 {
                    pos + 1
                } else {
                    r.1
                };
                lemma_build_fuel(
                    NodeView { children: cur.children.push(r.0), ..cur },
                    events,
                    p3,
                    (f1 - 1) as nat,
                    (f2 - 1) as nat,
                );
            },
            _ => {},
        }
    }
}

/// One step of `build_at`, for each kind of event.
proof fn lemma_build_at_step(cur: NodeView, events: Seq<TmxEvent>, pos: int)
    requires
        0 <= pos <= events.len(),
    ensures
        pos == events.len() ==> build_at(cur, events, pos) == (cur, pos),
        pos < events.len() ==> match events[pos] {
            TmxEvent::End => build_at(cur, events, pos) == (cur, pos + 1),
            TmxEvent::Eof => build_at(cur, events, pos) == (cur, pos + 1),
            TmxEvent::Fault => build_at(cur, events, pos) == (cur, pos + 1),
            TmxEvent::Text(t) => build_at(cur, events, pos) == build_at(
                NodeView { content: cur.content + t@, ..cur },
                events,
                pos + 1,
            ),
            TmxEvent::Skip => build_at(cur, events, pos) == build_at(cur, events, pos + 1),
            TmxEvent::Start { name, attrs } => {
                let r = build_at(start_view(name, attrs), events, pos + 1);
                &&& pos + 1 <= r.1 <= events.len()
                &&& build_at(cur, events, pos) == build_at(
                    NodeView { children: cur.children.push(r.0), ..cur },
                    events,
                    r.1,
                )
            },
        },
{
    if pos < events.len() {
        let fuel = (events.len() - pos + 1) as nat;
        match events[pos] {
            TmxEvent::Text(t) => {
                assert(build(cur, events, pos, fuel) == build(
                    NodeView { content: cur.content + t@, ..cur },
                    events,
                    pos + 1,
                    (fuel - 1) as nat,
                ));
            },
            TmxEvent::Skip => {
                assert(build(cur, events, pos, fuel) == build(
                    cur,
                    events,
                    pos + 1,
                    (fuel - 1) as nat,
                ));
            },
            TmxEvent::Start { name, attrs } => {
                lemma_build_pos(start_view(name, attrs), events, pos + 1, (fuel - 1) as nat);
                let r = build(start_view(name, attrs), events, pos + 1, (fuel - 1) as nat);
                assert(r == build_at(start_view(name, attrs), events, pos + 1));
                lemma_build_fuel(
                    NodeView { children: cur.children.push(r.0), ..cur },
                    events,
                    r.1,
                    (fuel - 1) as nat,
                    (events.len() - r.1 + 1) as nat,
                );
            },
            _ => {},
        }
    }
}

/// An elementwise copy of an attribute list.
fn clone_pairs(v: &Vec<(String, String)>) -> (r: Vec<(String, String)>)
    ensures
        r@ == v@,
{
    let mut r: Vec<(String, String)> = Vec::new();
    let mut i: usize = 0;
    while i < v.len()
        invariant
            i <= v.len(),
            r@ =~= v@.subrange(0, i as int),
        decreases v.len() - i,
    {
        let p = &v[i];
        r.push((p.0.clone(), p.1.clone()));
        proof {
            assert(r@ =~= v@.subrange(0, i + 1));
        }
        i += 1;
    }
    proof {
        assert(v@.subrange(0, v.len() as int) =~= v@);
    }
    r
}

/// Consumes events from `*pos` on, growing `current`: each `Start` event
/// opens a child node that is built recursively and appended in document
/// order, each `Text` event appends to the content, and an `End`, `Eof` or
/// `Fault` event, or the end of the events, returns to the caller. The
/// result is exactly the tree that `build_at` describes.
#[verifier::loop_isolation(false)]
pub fn read_node_elements(current: &mut Node, events: &Vec<TmxEvent>, pos: &mut usize)
    requires
        *old(pos) <= events@.len(),
    ensures
        *old(pos) <= *final(pos) <= events@.len(),
        (final(current)@, *final(pos) as int) == build_at(
            old(current)@,
            events@,
            *old(pos) as int,
        ),
    decreases events@.len() - *old(pos),
{
    let ghost p0: int = *pos as int;
    let ghost v0: NodeView = current@;
    let mut done: bool = false;
    while !done
        invariant
            p0 <= *pos <= events@.len(),
            !done ==> build_at(current@, events@, *pos as int) == build_at(v0, events@, p0),
            done ==> (current@, *pos as int) == build_at(v0, events@, p0),
        decreases events@.len() - *pos + (if done {
            0int
        } else {
            1int
        }),
    {
        if *pos >= events.len() {
            proof {
                lemma_build_at_step(current@, events@, *pos as int);
            }
            done = true;
        } else {
            let i: usize = *pos;
            let ev = &events[i];
            *pos = i + 1;
            proof {
                lemma_build_at_step(current@, events@, i as int);
            }
            match ev {
                TmxEvent::End | TmxEvent::Eof | TmxEvent::Fault => {
                    done = true;
                },
                TmxEvent::Text(t) => {
                    let ghost before = current@;
                    current.content.append(t.as_str());
                    proof {
                        assert(current@ =~= (NodeView { content: before.content + t@, ..before }));
                    }
                },
                TmxEvent::Skip => {},
                TmxEvent::Start { name, attrs } => {
                    let ghost before = current@;
                    let mut child = Node {
                        name: name.clone(),
                        attributes: clone_pairs(attrs),
                        children: Vec::new(),
                        content: String::new(),
                    };
                    proof {
                        assert(child@ =~= start_view(*name, *attrs));
                    }
                    read_node_elements(&mut child, events, pos);
                    let ghost childv = child@;
                    let ghost oldkids = current.children@;
                    current.children.push(child);
                    proof {
                        assert(current.children@.drop_last() =~= oldkids);
                        assert(current@ =~= (NodeView {
                            children: before.children.push(childv),
                            ..before
                        }));
                    }
                },
            }
        }
    }
}

#[verifier::external_type_specification]
#[verifier::external_body]
pub struct ExParserConfig(xml::reader::ParserConfig);

/// The event source: the `xml` crate's pull parser over a copy of the
/// document's bytes. Verus refuses the `EventReader<R>` declaration itself
/// (its `Read` bound), so the reader sits in an opaque struct of the
/// library's own.
#[verifier::external_body]
pub struct EventSource {
    inner: xml::reader::EventReader<std::io::Cursor<Vec<u8>>>,
}

/// The event stream that the `xml` crate's pull parser yields for these
/// bytes, up to and including its first end-of-document or error event.
/// The parse depends on the bytes alone, so the stream can be named;
/// nothing states which events it holds for given bytes.
pub uninterp spec fn xml_events(data: Seq<u8>) -> Seq<TmxEvent>;

/// The bytes an event source was created over.
pub uninterp spec fn source_data(s: EventSource) -> Seq<u8>;

/// How many events have been pulled from an event source.
pub uninterp spec fn source_pos(s: EventSource) -> int;

/// Relies on `xml::reader::ParserConfig::new` and its builder setters: the
/// configuration the tree builder expects, with comments ignored, whitespace
/// trimmed, whitespace runs folded into character events, and character runs
/// coalesced.
#[verifier::external_body]
fn parser_config() -> xml::reader::ParserConfig {
    xml::reader::ParserConfig::new()
        .ignore_comments(true)
        .trim_whitespace(true)
        .coalesce_characters(true)
        .whitespace_to_characters(true)
}

/// Relies on `xml::reader::ParserConfig::create_reader`: a pull parser over
/// the given bytes, positioned at the start of its stream. The reader's
/// documentation says that once `next` returns an error or the end of the
/// document it returns that same event ever after, so the stream up to that
/// first closing event is well defined: it ends with it and holds no
/// earlier one.
#[verifier::external_body]
fn make_reader(config: xml::reader::ParserConfig, data: &[u8]) -> (r: EventSource)
    ensures
        source_data(r) == data@,
        source_pos(r) == 0,
        xml_events(source_data(r)).len() >= 1,
        xml_events(source_data(r)).last() == TmxEvent::Eof || xml_events(source_data(r)).last()
            == TmxEvent::Fault,
        forall|j: int|
            0 <= j < xml_events(source_data(r)).len() - 1 ==> xml_events(source_data(r))[j]
                != TmxEvent::Eof && xml_events(source_data(r))[j] != TmxEvent::Fault,
{
    EventSource { inner: config.create_reader(std::io::Cursor::new(data.to_vec())) }
}

/// Relies on `xml::reader::EventReader::next`: hands back the event at the
/// source's position and advances it; past the end of the stream the
/// closing event repeats, as the reader's documentation states. Each
/// variant is mapped one for one onto `TmxEvent`; element and attribute
/// names are reduced to their local names, and a reader error becomes
/// `Fault`.
#[verifier::external_body]
fn next_event(reader: &mut EventSource) -> (r: TmxEvent)
    ensures
        source_data(*final(reader)) == source_data(*old(reader)),
        source_pos(*final(reader)) == source_pos(*old(reader)) + 1,
        ({
            let evs = xml_events(source_data(*old(reader)));
            let p = source_pos(*old(reader));
            &&& (0 <= p < evs.len() ==> r == evs[p])
            &&& (p >= evs.len() && evs.len() >= 1 ==> r == evs.last())
        }),
{
    let reader = &mut reader.inner;
    match reader.next() {
        Ok(xml::reader::XmlEvent::StartElement { name, attributes, .. }) => TmxEvent::Start {
            name: name.local_name,
            attrs: attributes.into_iter().map(|a| (a.name.local_name, a.value)).collect(),
        },
        Ok(xml::reader::XmlEvent::Characters(text)) => TmxEvent::Text(text),
        Ok(xml::reader::XmlEvent::EndElement { .. }) => TmxEvent::End,
        Ok(xml::reader::XmlEvent::EndDocument) => TmxEvent::Eof,
        Ok(_) => TmxEvent::Skip,
        Err(_) => TmxEvent::Fault,
    }
}

/// The events of the document proper: its stream without the closing
/// end-of-document or error event.
pub open spec fn document_events(data: Seq<u8>) -> Seq<TmxEvent> {
    xml_events(data).drop_last()
}

/// How many events `read_events` will pull before giving up: sixteen more
/// than there are input bytes, capped by the machine word.
pub open spec fn event_bound(n: int) -> int {
    if n + 16 <= usize::MAX {
        n + 16
    } else {
        usize::MAX as int
    }
}

/// Pulls the whole event stream out of `data`, up to the end of the
/// document: exactly `document_events(data)`. A reader fault is surfaced as
/// `MalformedXml`; so is a stream of more than `event_bound` many events,
/// which the parser cannot produce from this input, since every event
/// consumes input, and which would otherwise not terminate.
pub fn read_events(data: &[u8]) -> (r: Result<Vec<TmxEvent>, TmxError>)
    ensures
        match r {
            Ok(events) => {
                &&& xml_events(data@).len() >= 1
                &&& xml_events(data@).last() == TmxEvent::Eof
                &&& events@ == document_events(data@)
            },
            Err(e) => {
                &&& e == TmxError::MalformedXml
                &&& (xml_events(data@).last() == TmxEvent::Fault || xml_events(data@).len()
                    > event_bound(data@.len() as int))
            },
        },
{
    let mut reader = make_reader(parser_config(), data);
    let ghost evs = xml_events(data@);
    let mut events: Vec<TmxEvent> = Vec::new();
    let max: usize = if data.len() <= usize::MAX - 16 {
        data.len() + 16
    } else {
        usize::MAX
    };
    let mut i: usize = 0;
    while i < max
        invariant
            i <= max,
            max >= data@.len(),
            evs == xml_events(data@),
            evs.len() >= 1,
            evs.last() == TmxEvent::Eof || evs.last() == TmxEvent::Fault,
            forall|j: int|
                0 <= j < evs.len() - 1 ==> evs[j] != TmxEvent::Eof && evs[j] != TmxEvent::Fault,
            source_data(reader) == data@,
            source_pos(reader) == i as int,
            i <= evs.len() - 1,
            events@ == evs.subrange(0, i as int),
        decreases max - i,
    {
        let ev = next_event(&mut reader);
        proof {
            assert(ev == evs[i as int]);
        }
        match ev {
            TmxEvent::Eof => {
                proof {
                    assert(i == evs.len() - 1);
                    assert(events@ =~= evs.drop_last());
                }
                return Ok(events);
            },
            TmxEvent::Fault => {
                proof {
                    assert(i == evs.len() - 1);
                }
                return Err(TmxError::MalformedXml);
            },
            _ => {
                proof {
                    assert(evs.subrange(0, i + 1).drop_last() =~= evs.subrange(0, i as int));
                    assert(evs.subrange(0, i + 1).last() == evs[i as int]);
                }
                events.push(ev);
            },
        }
        i += 1;
    }
    proof {
        assert(evs.len() - 1 >= max);
    }
    Err(TmxError::MalformedXml)
}

} // verus!
