//! A forward cursor over the events of a document, and the extraction of
//! named attributes from a tag.

use vstd::prelude::*;
use crate::text::chars_of;
use crate::types::{Attribute, ErrorKind, Event, TiledError};

verus! {

/// The name and value of each attribute, in order.
pub open spec fn attrs_view(a: Seq<Attribute>) -> Seq<(Seq<char>, Seq<char>)> {
    a.map_values(|x: Attribute| (x.name@, x.value@))
}

/// The value of the last attribute called `name`, if there is one.
pub open spec fn last_value(a: Seq<(Seq<char>, Seq<char>)>, name: Seq<char>) -> Option<Seq<char>>
    decreases a.len(),
{
    if a.len() == 0 {
        None
    } else if a.last().0 == name {
        Some(a.last().1)
    } else {
        last_value(a.drop_last(), name)
    }
}

/// Whether two texts hold the same characters.
pub fn same_text(a: &str, b: &str) -> (r: bool)
    ensures
        r == (a@ == b@),
{
    let x = chars_of(a);
    let y = chars_of(b);
    if x.len() != y.len() {
        return false;
    }
    let mut i: usize = 0;
    while i < x.len()
        invariant
            x@ == a@,
            y@ == b@,
            x.len() == y.len(),
            i <= x.len(),
            forall|k: int| 0 <= k < i ==> x@[k] == y@[k],
        decreases x.len() - i,
    {
        if x[i] != y[i] {
            return false;
        }
        i = i + 1;
    }
    assert(x@ =~= y@);
    true
}

/// A copy of the string.
pub fn copy_string(s: &String) -> (r: String)
    ensures
        r@ == s@,
{
    s.clone()
}

/// A copy of the attribute list.
pub fn copy_attrs(a: &Vec<Attribute>) -> (r: Vec<Attribute>)
    ensures
        attrs_view(r@) == attrs_view(a@),
{
    let mut out: Vec<Attribute> = Vec::new();
    let mut i: usize = 0;
    while i < a.len()
        invariant
            i <= a.len(),
            attrs_view(out@) == attrs_view(a@.take(i as int)),
        decreases a.len() - i,
    {
        let x = Attribute { name: copy_string(&a[i].name), value: copy_string(&a[i].value) };
        let ghost before = out@;
        out.push(x);
        assert(out@ =~= before.push(x));
        assert(a@.take(i + 1) =~= a@.take(i as int).push(a@[i as int]));
        assert(attrs_view(out@) =~= attrs_view(before).push((x.name@, x.value@)));
        assert(attrs_view(a@.take(i + 1)) =~= attrs_view(a@.take(i as int)).push(
            (a@[i as int].name@, a@[i as int].value@),
        ));
        i = i + 1;
    }
    assert(a@.take(a.len() as int) =~= a@);
    out
}

/// One pass over the attributes filling one slot for each of `names`: a slot
/// holds the value of the last attribute of that name, or `None`.
pub fn get_attrs(attrs: &Vec<Attribute>, names: &Vec<&str>) -> (r: Vec<Option<String>>)
    ensures
        r.len() == names.len(),
        forall|k: int|
            0 <= k < names.len() ==> crate::types::opt_view(#[trigger] r@[k]) == last_value(
                attrs_view(attrs@),
                names@[k]@,
            ),
{
    let mut slots: Vec<Option<String>> = Vec::new();
    let mut k: usize = 0;
    while k < names.len()
        invariant
            k <= names.len(),
            slots.len() == k,
            forall|j: int| 0 <= j < k ==> (#[trigger] slots@[j]) is None,
        decreases names.len() - k,
    {
        slots.push(None);
        k = k + 1;
    }
    let mut i: usize = 0;
    while i < attrs.len()
        invariant
            i <= attrs.len(),
            slots.len() == names.len(),
            forall|j: int|
                0 <= j < names.len() ==> crate::types::opt_view(#[trigger] slots@[j])
                    == last_value(attrs_view(attrs@.take(i as int)), names@[j]@),
        decreases attrs.len() - i,
    {
        let ghost pre = attrs_view(attrs@.take(i as int));
        let ghost now = attrs_view(attrs@.take(i + 1));
        assert(now.drop_last() =~= pre);
        assert(now.last() == (attrs@[i as int].name@, attrs@[i as int].value@));
        let mut k: usize = 0;
        while k < names.len()
            invariant
                i < attrs.len(),
                k <= names.len(),
                slots.len() == names.len(),
                now.drop_last() == pre,
                now.last() == (attrs@[i as int].name@, attrs@[i as int].value@),
                now.len() > 0,
                now == attrs_view(attrs@.take(i + 1)),
                forall|j: int|
                    0 <= j < k ==> crate::types::opt_view(#[trigger] slots@[j]) == last_value(
                        now,
                        names@[j]@,
                    ),
                forall|j: int|
                    k <= j < names.len() ==> crate::types::opt_view(#[trigger] slots@[j])
                        == last_value(pre, names@[j]@),
            decreases names.len() - k,
        {
            if same_text(attrs[i].name.as_str(), names[k]) {
                slots.set(k, Some(copy_string(&attrs[i].value)));
            }
            k = k + 1;
        }
        i = i + 1;
    }
    assert(attrs@.take(attrs.len() as int) =~= attrs@);
    slots
}

} // verus!

verus! {

/// The events of a document and the position of the next one to read.
pub struct EventCursor {
    pub events: Vec<Event>,
    pub pos: usize,
}

impl EventCursor {
    pub fn new(events: Vec<Event>) -> (r: EventCursor)
        ensures
            r.events@ == events@,
            r.pos == 0,
    {
        EventCursor { events, pos: 0 }
    }

    /// The position is within the events (at their end once all are read).
    pub open spec fn wf(&self) -> bool {
        self.pos <= self.events.len()
    }
}

/// The character content of the tag under the cursor at `pos`: the first
/// text event, or `None` where `</data>` comes first; with the position
/// after the event that ended the search.
pub open spec fn content_scan(ev: Seq<Event>, pos: int) -> Result<(Option<Seq<char>>, int), ErrorKind>
    decreases ev.len() - pos,
{
    if pos < 0 || pos >= ev.len() {
        Err(ErrorKind::PrematureEnd)
    } else {
        match ev[pos] {
            Event::Characters(s) => Ok((Some(s@), pos + 1)),
            Event::EndElement { name } => if name@ == "data"@ {
                Ok((None, pos + 1))
            } else {
                content_scan(ev, pos + 1)
            },
            Event::EndDocument => Err(ErrorKind::PrematureEnd),
            Event::Malformed(_) => Err(ErrorKind::XmlDecoding),
            _ => content_scan(ev, pos + 1),
        }
    }
}

/// The next child tag before `</close>`: the index of its start event (or
/// `None` where `</close>` comes first), with the position after it.
pub open spec fn child_scan(ev: Seq<Event>, pos: int, close: Seq<char>) -> Result<
    (Option<int>, int),
    ErrorKind,
>
    decreases ev.len() - pos,
{
    if pos < 0 || pos >= ev.len() {
        Err(ErrorKind::PrematureEnd)
    } else {
        match ev[pos] {
            Event::StartElement { .. } => Ok((Some(pos), pos + 1)),
            Event::EndElement { name } => if name@ == close {
                Ok((None, pos + 1))
            } else {
                child_scan(ev, pos + 1, close)
            },
            Event::EndDocument => Err(ErrorKind::PrematureEnd),
            Event::Malformed(_) => Err(ErrorKind::XmlDecoding),
            _ => child_scan(ev, pos + 1, close),
        }
    }
}

pub open spec fn start_name(e: Event) -> Seq<char> {
    match e {
        Event::StartElement { name, .. } => name@,
        _ => Seq::empty(),
    }
}

pub open spec fn start_attrs(e: Event) -> Seq<(Seq<char>, Seq<char>)> {
    match e {
        Event::StartElement { attributes, .. } => attrs_view(attributes@),
        _ => Seq::empty(),
    }
}

pub proof fn lemma_content_scan_advances(ev: Seq<Event>, pos: int)
    requires
        content_scan(ev, pos) is Ok,
    ensures
        pos < content_scan(ev, pos)->Ok_0.1 <= ev.len(),
    decreases ev.len() - pos,
{
    if 0 <= pos < ev.len() {
        match ev[pos] {
            Event::Characters(_) => {},
            Event::EndElement { name } => if name@ != "data"@ {
                lemma_content_scan_advances(ev, pos + 1);
            },
            Event::EndDocument => {},
            Event::Malformed(_) => {},
            _ => {
                lemma_content_scan_advances(ev, pos + 1);
            },
        }
    }
}

pub proof fn lemma_child_scan_advances(ev: Seq<Event>, pos: int, close: Seq<char>)
    requires
        child_scan(ev, pos, close) is Ok,
    ensures
        pos < child_scan(ev, pos, close)->Ok_0.1 <= ev.len(),
        child_scan(ev, pos, close)->Ok_0.0 is Some ==> {
            let i = child_scan(ev, pos, close)->Ok_0.0->Some_0;
            &&& pos <= i < ev.len()
            &&& child_scan(ev, pos, close)->Ok_0.1 == i + 1
            &&& ev[i] is StartElement
        },
    decreases ev.len() - pos,
{
    if 0 <= pos < ev.len() {
        match ev[pos] {
            Event::StartElement { .. } => {},
            Event::EndElement { name } => if name@ != close {
                lemma_child_scan_advances(ev, pos + 1, close);
            },
            Event::EndDocument => {},
            Event::Malformed(_) => {},
            _ => {
                lemma_child_scan_advances(ev, pos + 1, close);
            },
        }
    }
}

/// One step of `next_content`: `None` to go on past the event.
fn content_step(e: &Event) -> (r: Option<Result<Option<String>, TiledError>>)
    ensures
        match *e {
            Event::Characters(s) => r is Some && r->Some_0 is Ok && r->Some_0->Ok_0 is Some
                && r->Some_0->Ok_0->Some_0@ == s@,
            Event::EndElement { name } => if name@ == "data"@ {
                r is Some && r->Some_0 is Ok && r->Some_0->Ok_0 is None
            } else {
                r is None
            },
            Event::EndDocument => r is Some && r->Some_0 is Err && r->Some_0->Err_0.kind() == ErrorKind::PrematureEnd,
            Event::Malformed(_) => r is Some && r->Some_0 is Err && r->Some_0->Err_0.kind() == ErrorKind::XmlDecoding,
            _ => r is None,
        },
{
    match e {
        Event::Characters(s) => Some(Ok(Some(copy_string(s)))),
        Event::EndElement { name } => {
            if same_text(name.as_str(), "data") {
                Some(Ok(None))
            } else {
                None
            }
        },
        Event::EndDocument => Some(Err(TiledError::PrematureEnd(String::from_str("Document ended inside a data tag")))),
        Event::Malformed(m) => Some(Err(TiledError::XmlDecodingError(copy_string(m)))),
        _ => None,
    }
}

/// One step of `next_child`: `None` to go on past the event.
fn child_step(e: &Event, close: &str) -> (r: Option<Result<Option<(String, Vec<Attribute>)>, TiledError>>)
    ensures
        match *e {
            Event::StartElement { name, attributes } => r is Some && r->Some_0 is Ok && r->Some_0->Ok_0 is Some
                && r->Some_0->Ok_0->Some_0.0@ == name@ && attrs_view(r->Some_0->Ok_0->Some_0.1@) == attrs_view(attributes@),
            Event::EndElement { name } => if name@ == close@ {
                r is Some && r->Some_0 is Ok && r->Some_0->Ok_0 is None
            } else {
                r is None
            },
            Event::EndDocument => r is Some && r->Some_0 is Err && r->Some_0->Err_0.kind() == ErrorKind::PrematureEnd,
            Event::Malformed(_) => r is Some && r->Some_0 is Err && r->Some_0->Err_0.kind() == ErrorKind::XmlDecoding,
            _ => r is None,
        },
{
    match e {
        Event::StartElement { name, attributes } => Some(Ok(Some((copy_string(name), copy_attrs(attributes))))),
        Event::EndElement { name } => {
            if same_text(name.as_str(), close) {
                Some(Ok(None))
            } else {
                None
            }
        },
        Event::EndDocument => Some(Err(TiledError::PrematureEnd(String::from_str("Document ended before we expected.")))),
        Event::Malformed(m) => Some(Err(TiledError::XmlDecodingError(copy_string(m)))),
        _ => None,
    }
}

/// Reads up to the character content of a `data` tag or its end.
///
/// Only the first text event is taken: a reader that splits the content of
/// one tag into several text events would have the rest passed over by the
/// caller. Readers give the content of a tag as one event in practice, and
/// this is what the decoders rely on.
pub fn next_content(parser: &mut EventCursor) -> (r: Result<Option<String>, TiledError>)
    requires
        old(parser).wf(),
    ensures
        final(parser).events@ == old(parser).events@,
        final(parser).wf(),
        match content_scan(old(parser).events@, old(parser).pos as int) {
            Ok((s, p)) => r is Ok && crate::types::opt_view(r->Ok_0) == s && final(parser).pos == p,
            Err(k) => r is Err && r->Err_0.kind() == k,
        },
{
    let ghost ev = parser.events@;
    let ghost start = parser.pos as int;
    let mut found: Option<Result<Option<String>, TiledError>> = None;
    while parser.pos < parser.events.len()
        invariant_except_break
            content_scan(ev, start) == content_scan(ev, parser.pos as int),
            found is None,
        invariant
            parser.events@ == ev,
            start <= parser.pos <= ev.len(),
        ensures
            parser.events@ == ev,
            start <= parser.pos <= ev.len(),
            found is None ==> content_scan(ev, start) == content_scan(ev, parser.pos as int) && parser.pos == ev.len(),
            found is Some ==> match content_scan(ev, start) {
                Ok((s, p)) => found->Some_0 is Ok && crate::types::opt_view(found->Some_0->Ok_0) == s && parser.pos == p,
                Err(k) => found->Some_0 is Err && found->Some_0->Err_0.kind() == k,
            },
        decreases ev.len() - parser.pos,
    {
        let i = parser.pos;
        let step = content_step(&parser.events[i]);
        parser.pos = i + 1;
        if step.is_some() {
            found = step;
            break;
        }
    }
    match found {
        Some(r) => r,
        None => Err(TiledError::PrematureEnd(String::from_str("Document ended inside a data tag"))),
    }
}

/// Advances to the next child tag of the tag that `</close>` ends, giving its
/// name and attributes, or `None` once `</close>` is read.
pub fn next_child(parser: &mut EventCursor, close: &str) -> (r: Result<
    Option<(String, Vec<Attribute>)>,
    TiledError,
>)
    requires
        old(parser).wf(),
    ensures
        final(parser).events@ == old(parser).events@,
        final(parser).wf(),
        match child_scan(old(parser).events@, old(parser).pos as int, close@) {
            Ok((None, p)) => r is Ok && r->Ok_0 is None && final(parser).pos == p,
            Ok((Some(i), p)) => r is Ok && r->Ok_0 is Some && final(parser).pos == p
                && r->Ok_0->Some_0.0@ == start_name(old(parser).events@[i]) && attrs_view(
                r->Ok_0->Some_0.1@,
            ) == start_attrs(old(parser).events@[i]),
            Err(k) => r is Err && r->Err_0.kind() == k,
        },
{
    let ghost ev = parser.events@;
    let ghost start = parser.pos as int;
    let mut found: Option<Result<Option<(String, Vec<Attribute>)>, TiledError>> = None;
    while parser.pos < parser.events.len()
        invariant_except_break
            child_scan(ev, start, close@) == child_scan(ev, parser.pos as int, close@),
            found is None,
        invariant
            parser.events@ == ev,
            start <= parser.pos <= ev.len(),
        ensures
            parser.events@ == ev,
            start <= parser.pos <= ev.len(),
            found is None ==> child_scan(ev, start, close@) == child_scan(ev, parser.pos as int, close@) && parser.pos == ev.len(),
            found is Some ==> match child_scan(ev, start, close@) {
                Ok((None, p)) => found->Some_0 is Ok && found->Some_0->Ok_0 is None && parser.pos == p,
                Ok((Some(i), p)) => found->Some_0 is Ok && found->Some_0->Ok_0 is Some && parser.pos == p
                    && found->Some_0->Ok_0->Some_0.0@ == start_name(ev[i]) && attrs_view(
                    found->Some_0->Ok_0->Some_0.1@,
                ) == start_attrs(ev[i]),
                Err(k) => found->Some_0 is Err && found->Some_0->Err_0.kind() == k,
            },
        decreases ev.len() - parser.pos,
    {
        let i = parser.pos;
        let step = child_step(&parser.events[i], close);
        parser.pos = i + 1;
        if step.is_some() {
            found = step;
            break;
        }
    }
    match found {
        Some(r) => r,
        None => Err(TiledError::PrematureEnd(String::from_str("Document ended before we expected."))),
    }
}

} // verus!
