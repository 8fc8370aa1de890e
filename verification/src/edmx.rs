//! The metadata documents of OData services: which entity sets there are, and which
//! properties and keys the entity types have.

use vstd::prelude::*;
use vstd::string::*;
use quick_xml::events::{BytesStart, Event};
use crate::json::{no_members, opt_str_v, push_value, str_values, strings, values, Json, JsonV, Members, Object};
use crate::strmap::{find, lemma_put_find, put, put_is_found};
use crate::text::{after_char, cat2, last_piece, opt_text, same, texts};

verus! {

/// An attribute of an element. The value is missing where it could not be decoded.
pub struct XmlAttribute {
    pub key: String,
    pub value: Option<String>,
}

/// An element: its name, and its attributes, with a gap for each that could not be
/// read.
pub struct XmlTag {
    pub name: String,
    pub attributes: Vec<Option<XmlAttribute>>,
}

/// An event of reading a document.
pub enum XmlEvent {
    /// An element begins.
    Start(XmlTag),
    /// An element begins and ends.
    Empty(XmlTag),
    /// An element ends.
    End(String),
    /// Something else was read.
    Other,
    /// The document ends.
    Eof,
    /// The document is not well-formed.
    Failed(String),
}

/// An attribute.
pub struct AttributeV {
    pub key: Seq<char>,
    pub value: Option<Seq<char>>,
}

/// An element.
pub struct TagV {
    pub name: Seq<char>,
    pub attributes: Seq<Option<AttributeV>>,
}

/// An event.
pub enum EventV {
    Start(TagV),
    Empty(TagV),
    End(Seq<char>),
    Other,
    Eof,
    Failed(Seq<char>),
}

/// What an attribute is.
pub open spec fn attribute_of(a: Option<XmlAttribute>) -> Option<AttributeV> {
    match a {
        Some(x) => Some(AttributeV { key: x.key@, value: opt_text(x.value) }),
        None => None,
    }
}

impl XmlTag {
    /// What the element is.
    pub open spec fn view(&self) -> TagV {
        TagV {
            name: self.name@,
            attributes: Seq::new(
                self.attributes@.len(),
                |i: int| attribute_of(self.attributes@[i]),
            ),
        }
    }
}

impl XmlEvent {
    /// What the event is.
    pub open spec fn view(&self) -> EventV {
        match self {
            XmlEvent::Start(t) => EventV::Start(t@),
            XmlEvent::Empty(t) => EventV::Empty(t@),
            XmlEvent::End(n) => EventV::End(n@),
            XmlEvent::Other => EventV::Other,
            XmlEvent::Eof => EventV::Eof,
            XmlEvent::Failed(e) => EventV::Failed(e@),
        }
    }
}

impl EventV {
    /// Whether nothing comes after the event.
    pub open spec fn ends(self) -> bool {
        self is Eof || self is Failed
    }
}

/// Whether events go on to the end of a document, or to its first fault, and no
/// further.
pub open spec fn complete(events: Seq<EventV>) -> bool {
    &&& events.len() > 0
    &&& events.last().ends()
    &&& forall|i: int| 0 <= i < events.len() - 1 ==> !(#[trigger] events[i]).ends()
}

/// `quick_xml::reader::Reader`, which reads a document event by event.
#[verifier::external_type_specification]
#[verifier::external_body]
#[verifier::reject_recursive_types(R)]
pub struct ExReader<R>(quick_xml::reader::Reader<R>);

/// The events that a reader has yet to read, to the end of the document or to its first
/// fault.
pub uninterp spec fn pending(reader: quick_xml::reader::Reader<&[u8]>) -> Seq<EventV>;

/// The events of a document, to its end or to its first fault.
pub uninterp spec fn xml_events(text: Seq<char>) -> Seq<EventV>;

/// `quick_xml::reader::Reader::from_str`, with the white space around texts trimmed.
/// What the reader reads depends on the text alone. Every event but the end of the
/// document takes at least one byte of it, so that the end or a fault comes.
#[verifier::external_body]
fn open_xml<'a>(xml: &'a str) -> (r: quick_xml::reader::Reader<&'a [u8]>)
    ensures
        pending(r) == xml_events(xml@),
        complete(pending(r)),
{
    let mut reader = quick_xml::reader::Reader::from_str(xml);
    reader.config_mut().trim_text(true);
    reader
}

/// `quick_xml::events::BytesStart`, an element as it was read.
#[verifier::external_type_specification]
#[verifier::external_body]
pub struct ExBytesStart<'a>(quick_xml::events::BytesStart<'a>);

/// The name and the attributes of an element as it was read.
pub uninterp spec fn tag_of(e: quick_xml::events::BytesStart<'static>) -> TagV;

/// What was read.
enum XmlRead {
    Start(BytesStart<'static>),
    Empty(BytesStart<'static>),
    End(String),
    Other,
    Eof,
    Failed(String),
}

impl XmlRead {
    /// The event that was read.
    spec fn event(&self) -> EventV {
        match self {
            XmlRead::Start(e) => EventV::Start(tag_of(*e)),
            XmlRead::Empty(e) => EventV::Empty(tag_of(*e)),
            XmlRead::End(n) => EventV::End(n@),
            XmlRead::Other => EventV::Other,
            XmlRead::Eof => EventV::Eof,
            XmlRead::Failed(e) => EventV::Failed(e@),
        }
    }
}

/// `quick_xml::reader::Reader::read_event_into`, which reads the next event. Names are
/// taken as UTF-8. Whatever is no tag, no end and no fault is `Other`.
#[verifier::external_body]
fn read_event(reader: &mut quick_xml::reader::Reader<&[u8]>) -> (r: XmlRead)
    requires
        pending(*old(reader)).len() > 0,
    ensures
        r.event() == pending(*old(reader))[0],
        pending(*final(reader)) == pending(*old(reader)).drop_first(),
{
    match reader.read_event_into(&mut Vec::new()) {
        Ok(Event::Start(e)) => XmlRead::Start(e.into_owned()),
        Ok(Event::Empty(e)) => XmlRead::Empty(e.into_owned()),
        Ok(Event::End(e)) => XmlRead::End(String::from_utf8_lossy(e.name().as_ref()).into_owned()),
        Ok(Event::Eof) => XmlRead::Eof,
        Ok(_) => XmlRead::Other,
        Err(e) => XmlRead::Failed(e.to_string()),
    }
}

/// `quick_xml::events::BytesStart::attributes`, with the name of the element. Names are
/// taken as UTF-8, and values are decoded and unescaped as the library does it. An
/// attribute that the library reports a fault of leaves a gap, and a value that it cannot
/// decode is missing. All of that depends on the element alone: the decoder of a reader
/// that was made from a text is always that of UTF-8.
#[verifier::external_body]
fn read_tag(reader: &quick_xml::reader::Reader<&[u8]>, e: &BytesStart<'static>) -> (r: XmlTag)
    ensures
        r@ == tag_of(*e),
{
    let text = |b: &[u8]| String::from_utf8_lossy(b).into_owned();
    let attributes = e.attributes().map(|r| r.ok().map(|a| XmlAttribute {
        key: text(a.key.as_ref()),
        value: a.decode_and_unescape_value(reader.decoder()).ok().map(|v| v.into_owned()),
    })).collect();
    XmlTag { name: text(e.name().as_ref()), attributes }
}

/// Reads the next event.
fn next_event(reader: &mut quick_xml::reader::Reader<&[u8]>) -> (r: XmlEvent)
    requires
        pending(*old(reader)).len() > 0,
    ensures
        r@ == pending(*old(reader))[0],
        pending(*final(reader)) == pending(*old(reader)).drop_first(),
{
    match read_event(reader) {
        XmlRead::Start(e) => XmlEvent::Start(read_tag(reader, &e)),
        XmlRead::Empty(e) => XmlEvent::Empty(read_tag(reader, &e)),
        XmlRead::End(n) => XmlEvent::End(n),
        XmlRead::Other => XmlEvent::Other,
        XmlRead::Eof => XmlEvent::Eof,
        XmlRead::Failed(e) => XmlEvent::Failed(e),
    }
}

/// The value of the first attribute with a name that could be read and decoded.
pub open spec fn attr(a: Seq<Option<AttributeV>>, name: Seq<char>) -> Option<Seq<char>>
    decreases a.len(),
{
    if a.len() == 0 {
        None
    } else if a[0] matches Some(x) && x.key == name && x.value is Some {
        a[0]->0.value
    } else {
        attr(a.drop_first(), name)
    }
}

impl XmlTag {
    /// The value of the first attribute with a name that could be read and decoded.
    pub fn attribute(&self, name: &str) -> (r: Option<String>)
        ensures
            opt_text(r) == attr(self@.attributes, name@),
    {
        let ghost all = self@.attributes;
        let mut i: usize = 0;
        assert(all.skip(0) =~= all);
        while i < self.attributes.len()
            invariant
                i <= self.attributes@.len(),
                all == self@.attributes,
                attr(all, name@) == attr(all.skip(i as int), name@),
            decreases self.attributes@.len() - i,
        {
            let ghost rest = all.skip(i as int);
            assert(rest[0] == all[i as int]);
            assert(rest.drop_first() =~= all.skip(i + 1));
            if let Some(x) = &self.attributes[i] {
                if same(x.key.as_str(), name) {
                    if let Some(v) = &x.value {
                        return Some(v.clone());
                    }
                }
            }
            i = i + 1;
        }
        None
    }

    /// The value of an attribute, or of the one with the prefix `sap:`.
    fn sap_attribute(&self, name: &str, prefixed: &str) -> (r: Option<String>)
        ensures
            opt_text(r) == sap_attr(self@, name@, prefixed@),
    {
        match self.attribute(name) {
            Some(v) => Some(v),
            None => self.attribute(prefixed),
        }
    }

    fn flag(&self, name: &str, prefixed: &str) -> (r: Json)
        ensures
            r@ == advertised(sap_attr(self@, name@, prefixed@)),
    {
        match self.sap_attribute(name, prefixed) {
            Some(v) => Json::Bool(same(v.as_str(), "true")),
            None => Json::Null,
        }
    }
}

/// The value of an attribute, or of the one with a prefix.
pub open spec fn sap_attr(t: TagV, name: Seq<char>, prefixed: Seq<char>) -> Option<Seq<char>> {
    match attr(t.attributes, name) {
        Some(v) => Some(v),
        None => attr(t.attributes, prefixed),
    }
}

/// What a document says of a capability: whether its value is `true`, null where it says
/// nothing.
pub open spec fn advertised(v: Option<Seq<char>>) -> JsonV {
    match v {
        Some(x) => JsonV::Bool(x == "true"@),
        None => JsonV::Null,
    }
}

/// Whether a value is missing or is not `false`.
pub open spec fn not_false(v: Option<Seq<char>>) -> bool {
    v != Some("false"@)
}

fn is_not_false(v: &Option<String>) -> (r: bool)
    ensures
        r == not_false(opt_text(*v)),
{
    match v {
        Some(s) => !same(s.as_str(), "false"),
        None => true,
    }
}

/// The last part of an optional dotted name, empty where there is none.
pub open spec fn short_name(v: Option<Seq<char>>) -> Seq<char> {
    match v {
        Some(s) => last_piece(s, '.'),
        None => last_piece(""@, '.'),
    }
}

fn short_of(v: &Option<String>) -> (r: String)
    ensures
        r@ == short_name(opt_text(*v)),
{
    match v {
        Some(s) => after_char(s.as_str(), '.'),
        None => after_char("", '.'),
    }
}

/// An entity set, as a JSON object.
pub open spec fn set_object(name: Seq<char>, t: TagV) -> JsonV {
    let o = put(no_members(), "name"@, JsonV::Str(name));
    let o = put(
        o,
        "entity_type"@,
        JsonV::Str(short_name(attr(t.attributes, "EntityType"@))),
    );
    let o = put(
        o,
        "creatable"@,
        advertised(sap_attr(t, "creatable"@, "sap:creatable"@)),
    );
    let o = put(
        o,
        "updatable"@,
        advertised(sap_attr(t, "updatable"@, "sap:updatable"@)),
    );
    let o = put(
        o,
        "deletable"@,
        advertised(sap_attr(t, "deletable"@, "sap:deletable"@)),
    );
    JsonV::Obj(
        put(
            o,
            "addressable"@,
            JsonV::Bool(not_false(sap_attr(t, "addressable"@, "sap:addressable"@))),
        ),
    )
}

/// An entity set holds what the document says of each of its capabilities.
pub proof fn sets_hold_what_is_advertised(name: Seq<char>, t: TagV)
    ensures
        set_object(name, t).get("creatable"@) == Some(
            advertised(sap_attr(t, "creatable"@, "sap:creatable"@)),
        ),
        set_object(name, t).get("updatable"@) == Some(
            advertised(sap_attr(t, "updatable"@, "sap:updatable"@)),
        ),
        set_object(name, t).get("deletable"@) == Some(
            advertised(sap_attr(t, "deletable"@, "sap:deletable"@)),
        ),
{
    reveal_strlit("name");
    reveal_strlit("entity_type");
    reveal_strlit("creatable");
    reveal_strlit("updatable");
    reveal_strlit("deletable");
    reveal_strlit("addressable");
    assert("creatable"@[0] == 'c' && "updatable"@[0] == 'u' && "deletable"@[0] == 'd');
    assert("addressable"@[0] == 'a');
    let a = put(no_members(), "name"@, JsonV::Str(name));
    let y = JsonV::Str(short_name(attr(t.attributes, "EntityType"@)));
    let b = put(a, "entity_type"@, y);
    let vc = advertised(sap_attr(t, "creatable"@, "sap:creatable"@));
    let vu = advertised(sap_attr(t, "updatable"@, "sap:updatable"@));
    let vd = advertised(sap_attr(t, "deletable"@, "sap:deletable"@));
    let va = JsonV::Bool(not_false(sap_attr(t, "addressable"@, "sap:addressable"@)));
    let c = put(b, "creatable"@, vc);
    let u = put(c, "updatable"@, vu);
    let d = put(u, "deletable"@, vd);
    lemma_put_find(b, "creatable"@, vc, "creatable"@);
    lemma_put_find(c, "updatable"@, vu, "creatable"@);
    lemma_put_find(c, "updatable"@, vu, "updatable"@);
    lemma_put_find(u, "deletable"@, vd, "creatable"@);
    lemma_put_find(u, "deletable"@, vd, "updatable"@);
    lemma_put_find(u, "deletable"@, vd, "deletable"@);
    lemma_put_find(d, "addressable"@, va, "creatable"@);
    lemma_put_find(d, "addressable"@, va, "updatable"@);
    lemma_put_find(d, "addressable"@, va, "deletable"@);
}

fn set_json(name: &str, t: &XmlTag) -> (r: Json)
    ensures
        r@ == set_object(name@, t@),
{
    let mut o = Object::new();
    o.set("name", Json::str(name));
    o.set("entity_type", Json::str(short_of(&t.attribute("EntityType")).as_str()));
    o.set("creatable", t.flag("creatable", "sap:creatable"));
    o.set("updatable", t.flag("updatable", "sap:updatable"));
    o.set("deletable", t.flag("deletable", "sap:deletable"));
    o.set(
        "addressable",
        Json::Bool(is_not_false(&t.sap_attribute("addressable", "sap:addressable"))),
    );
    Json::Object(o)
}

/// A property, as a JSON object.
pub open spec fn property_object(name: Seq<char>, t: TagV) -> JsonV {
    let o = put(no_members(), "name"@, JsonV::Str(name));
    let o = put(o, "type"@, JsonV::Str(short_name(attr(t.attributes, "Type"@))));
    let o = put(o, "nullable"@, JsonV::Bool(not_false(attr(t.attributes, "Nullable"@))));
    JsonV::Obj(put(o, "max_length"@, opt_str_v(attr(t.attributes, "MaxLength"@))))
}

fn property_json(name: &str, t: &XmlTag) -> (r: Json)
    ensures
        r@ == property_object(name@, t@),
{
    let mut o = Object::new();
    o.set("name", Json::str(name));
    o.set("type", Json::str(short_of(&t.attribute("Type")).as_str()));
    o.set("nullable", Json::Bool(is_not_false(&t.attribute("Nullable"))));
    o.set("max_length", Json::opt_str(&t.attribute("MaxLength")));
    Json::Object(o)
}

/// An entity type, as a JSON object.
pub open spec fn type_object(
    properties: Seq<JsonV>,
    keys: Seq<Seq<char>>,
    base: Option<Seq<char>>,
) -> JsonV {
    let o = put(no_members(), "properties"@, JsonV::Arr(properties));
    let o = put(o, "keys"@, JsonV::Arr(str_values(keys)));
    JsonV::Obj(
        match base {
            Some(b) => put(o, "base_type"@, JsonV::Str(last_piece(b, '.'))),
            None => o,
        },
    )
}

fn type_json(properties: Vec<Json>, keys: &Vec<String>, base: &Option<String>) -> (r: Json)
    ensures
        r@ == type_object(values(properties@), texts(keys@), opt_text(*base)),
{
    let mut o = Object::new();
    o.set("properties", Json::Array(properties));
    o.set("keys", strings(keys));
    if let Some(b) = base {
        o.set("base_type", Json::str(after_char(b.as_str(), '.').as_str()));
    }
    Json::Object(o)
}

/// What was found so far in a document.
pub struct Edmx {
    pub sets: Vec<Json>,
    pub types: Object,
    /// The entity type that is being read.
    pub cur_type: Option<String>,
    pub cur_props: Vec<Json>,
    pub cur_keys: Vec<String>,
    pub cur_base: Option<String>,
    pub in_key: bool,
    pub in_complex: bool,
}

/// What was found so far in a document.
#[verifier::ext_equal]
pub struct EdmxV {
    pub sets: Seq<JsonV>,
    pub types: Members,
    pub cur_type: Option<Seq<char>>,
    pub cur_props: Seq<JsonV>,
    pub cur_keys: Seq<Seq<char>>,
    pub cur_base: Option<Seq<char>>,
    pub in_key: bool,
    pub in_complex: bool,
}

impl EdmxV {
    /// Nothing was found yet.
    pub open spec fn start() -> EdmxV {
        EdmxV {
            sets: Seq::empty(),
            types: no_members(),
            cur_type: None,
            cur_props: Seq::empty(),
            cur_keys: Seq::empty(),
            cur_base: None,
            in_key: false,
            in_complex: false,
        }
    }

    /// After an element began.
    pub open spec fn open(self, t: TagV, self_closing: bool) -> EdmxV {
        let local = last_piece(t.name, ':');
        let name = attr(t.attributes, "Name"@);
        if local == "ComplexType"@ {
            EdmxV { in_complex: self.in_complex || !self_closing, ..self }
        } else if local == "EntitySet"@ {
            match name {
                Some(n) => EdmxV { sets: self.sets.push(set_object(n, t)), ..self },
                None => self,
            }
        } else if local == "EntityType"@ {
            match name {
                Some(n) => if self_closing {
                    EdmxV {
                        types: put(
                            self.types,
                            n,
                            type_object(Seq::empty(), Seq::empty(), attr(t.attributes, "BaseType"@)),
                        ),
                        ..self
                    }
                } else {
                    EdmxV {
                        cur_type: Some(n),
                        cur_props: Seq::empty(),
                        cur_keys: Seq::empty(),
                        cur_base: attr(t.attributes, "BaseType"@),
                        ..self
                    }
                },
                None => self,
            }
        } else if local == "Key"@ {
            EdmxV { in_key: self.in_key || !self_closing, ..self }
        } else if local == "PropertyRef"@ {
            match name {
                Some(n) => if self.in_key {
                    EdmxV { cur_keys: self.cur_keys.push(n), ..self }
                } else {
                    self
                },
                None => self,
            }
        } else if local == "Property"@ {
            match name {
                Some(n) => if self.cur_type is Some && !self.in_complex {
                    EdmxV { cur_props: self.cur_props.push(property_object(n, t)), ..self }
                } else {
                    self
                },
                None => self,
            }
        } else {
            self
        }
    }

    /// After an element ended.
    pub open spec fn close(self, name: Seq<char>) -> EdmxV {
        let local = last_piece(name, ':');
        if local == "Key"@ {
            EdmxV { in_key: false, ..self }
        } else if local == "ComplexType"@ {
            EdmxV { in_complex: false, ..self }
        } else if local == "EntityType"@ {
            match self.cur_type {
                Some(n) => EdmxV {
                    types: put(
                        self.types,
                        n,
                        type_object(self.cur_props, self.cur_keys, self.cur_base),
                    ),
                    cur_type: None,
                    cur_base: None,
                    cur_props: Seq::empty(),
                    cur_keys: Seq::empty(),
                    ..self
                },
                None => EdmxV { cur_props: Seq::empty(), cur_keys: Seq::empty(), ..self },
            }
        } else {
            self
        }
    }

    /// After an event.
    pub open spec fn step(self, e: EventV) -> EdmxV {
        match e {
            EventV::Start(t) => self.open(t, false),
            EventV::Empty(t) => self.open(t, true),
            EventV::End(n) => self.close(n),
            _ => self,
        }
    }

    /// What was found, as a JSON object.
    pub open spec fn result(self) -> JsonV {
        let o = put(no_members(), "entity_sets"@, JsonV::Arr(self.sets));
        JsonV::Obj(put(o, "entity_types"@, JsonV::Obj(self.types)))
    }
}

/// What the events of a document come to: the entity sets and types, or the first fault.
pub open spec fn edmx_outcome(s: EdmxV, events: Seq<EventV>) -> Result<JsonV, Seq<char>>
    decreases events.len(),
{
    if events.len() == 0 {
        Ok(s.result())
    } else {
        match events[0] {
            EventV::Eof => Ok(s.result()),
            EventV::Failed(e) => Err("metadata xml error: "@ + e),
            e => edmx_outcome(s.step(e), events.drop_first()),
        }
    }
}

impl Edmx {
    /// What was found.
    pub open spec fn view(&self) -> EdmxV {
        EdmxV {
            sets: values(self.sets@),
            types: self.types@,
            cur_type: opt_text(self.cur_type),
            cur_props: values(self.cur_props@),
            cur_keys: texts(self.cur_keys@),
            cur_base: opt_text(self.cur_base),
            in_key: self.in_key,
            in_complex: self.in_complex,
        }
    }

    /// Nothing was found yet.
    pub fn new() -> (r: Edmx)
        ensures
            r@ == EdmxV::start(),
    {
        let r = Edmx {
            sets: Vec::new(),
            types: Object::new(),
            cur_type: None,
            cur_props: Vec::new(),
            cur_keys: Vec::new(),
            cur_base: None,
            in_key: false,
            in_complex: false,
        };
        assert(r@ =~= EdmxV::start());
        r
    }

    /// An element began.
    pub fn handle_open(&mut self, t: &XmlTag, self_closing: bool)
        ensures
            final(self)@ == old(self)@.open(t@, self_closing),
    {
        let ghost before_open = self@;
        let local = after_char(t.name.as_str(), ':');
        let name = t.attribute("Name");
        if same(local.as_str(), "ComplexType") {
            self.in_complex = self.in_complex || !self_closing;
        } else if same(local.as_str(), "EntitySet") {
            if let Some(n) = name {
                push_value(&mut self.sets, set_json(n.as_str(), t));
            }
        } else if same(local.as_str(), "EntityType") {
            if let Some(n) = name {
                if self_closing {
                    let none: Vec<Json> = Vec::new();
                    let no_keys: Vec<String> = Vec::new();
                    assert(values(none@) =~= Seq::<JsonV>::empty());
                    assert(texts(no_keys@) =~= Seq::<Seq<char>>::empty());
                    self.types.set(
                        n.as_str(),
                        type_json(none, &no_keys, &t.attribute("BaseType")),
                    );
                } else {
                    self.cur_type = Some(n);
                    self.cur_props = Vec::new();
                    self.cur_keys = Vec::new();
                    self.cur_base = t.attribute("BaseType");
                    assert(values(self.cur_props@) =~= Seq::<JsonV>::empty());
                    assert(texts(self.cur_keys@) =~= Seq::<Seq<char>>::empty());
                }
            }
        } else if same(local.as_str(), "Key") {
            self.in_key = self.in_key || !self_closing;
        } else if same(local.as_str(), "PropertyRef") {
            if self.in_key {
                if let Some(n) = name {
                    let ghost k = texts(self.cur_keys@);
                    self.cur_keys.push(n);
                    assert(texts(self.cur_keys@) =~= k.push(n@));
                }
            }
        } else if same(local.as_str(), "Property") {
            if self.cur_type.is_some() && !self.in_complex {
                if let Some(n) = name {
                    push_value(&mut self.cur_props, property_json(n.as_str(), t));
                }
            }
        }
        assert(self@ =~= before_open.open(t@, self_closing));
    }

    /// An element ended.
    pub fn handle_close(&mut self, name: &str)
        ensures
            final(self)@ == old(self)@.close(name@),
    {
        let ghost before_close = self@;
        let local = after_char(name, ':');
        if same(local.as_str(), "Key") {
            self.in_key = false;
        } else if same(local.as_str(), "ComplexType") {
            self.in_complex = false;
        } else if same(local.as_str(), "EntityType") {
            let mut props: Vec<Json> = Vec::new();
            let mut keys: Vec<String> = Vec::new();
            assert(values(props@) =~= Seq::<JsonV>::empty());
            assert(texts(keys@) =~= Seq::<Seq<char>>::empty());
            std::mem::swap(&mut props, &mut self.cur_props);
            std::mem::swap(&mut keys, &mut self.cur_keys);
            let t = self.cur_type.take();
            if let Some(n) = t {
                let base = self.cur_base.take();
                self.types.set(n.as_str(), type_json(props, &keys, &base));
            }
        }
        assert(self@ =~= before_close.close(name@));
    }

    /// An event was read.
    pub fn step(&mut self, e: &XmlEvent)
        ensures
            final(self)@ == old(self)@.step(e@),
    {
        match e {
            XmlEvent::Start(t) => self.handle_open(t, false),
            XmlEvent::Empty(t) => self.handle_open(t, true),
            XmlEvent::End(n) => self.handle_close(n.as_str()),
            _ => {},
        }
    }

    /// What was found, as a JSON object.
    pub fn finish(self) -> (r: Json)
        ensures
            r@ == self@.result(),
    {
        let mut o = Object::new();
        o.set("entity_sets", Json::Array(self.sets));
        o.set("entity_types", Json::Object(self.types));
        Json::Object(o)
    }
}

/// Reads a metadata document: entity sets with their capabilities, and entity types with
/// their properties, keys and base types.
pub fn parse_edmx(xml: &str) -> (r: Result<Json, String>)
    ensures
        (match r {
            Ok(v) => edmx_outcome(EdmxV::start(), xml_events(xml@)) == Ok::<JsonV, Seq<char>>(v@),
            Err(e) => edmx_outcome(EdmxV::start(), xml_events(xml@)) == Err::<JsonV, Seq<char>>(
                e@,
            ),
        }),
{
    let mut reader = open_xml(xml);
    let mut state = Edmx::new();
    loop
        invariant
            complete(pending(reader)),
            edmx_outcome(state@, pending(reader)) == edmx_outcome(
                EdmxV::start(),
                xml_events(xml@),
            ),
        decreases pending(reader).len(),
    {
        let ghost rest = pending(reader);
        let e = next_event(&mut reader);
        match e {
            XmlEvent::Eof => {
                return Ok(state.finish());
            },
            XmlEvent::Failed(msg) => {
                return Err(cat2("metadata xml error: ", msg.as_str()));
            },
            _ => {
                proof {
                    assert(rest.len() > 1) by {
                        assert(rest.last() == rest[rest.len() - 1]);
                    }
                    let next = rest.drop_first();
                    assert(next.last() == rest.last());
                    assert forall|i: int| 0 <= i < next.len() - 1 implies !(#[trigger] next[i]).ends() by {
                        assert(next[i] == rest[i + 1]);
                    }
                }
                state.step(&e);
            },
        }
    }
}

/// The properties of a complex type do not end up among those of an entity type.
pub proof fn complex_properties_stay_out(s: EdmxV, t: TagV, self_closing: bool)
    requires
        s.in_complex,
        last_piece(t.name, ':') == "Property"@,
    ensures
        s.open(t, self_closing) == s,
{
    reveal_strlit("Property");
    reveal_strlit("ComplexType");
    reveal_strlit("EntitySet");
    reveal_strlit("EntityType");
    reveal_strlit("Key");
    reveal_strlit("PropertyRef");
    assert("Property"@.len() == 8 && "ComplexType"@.len() == 11 && "EntitySet"@.len() == 9);
    assert("EntityType"@.len() == 10 && "Key"@.len() == 3 && "PropertyRef"@.len() == 11);
}

/// An entity type that begins and ends at once is complete: nothing of it is carried
/// over to what follows.
pub proof fn empty_entity_type_is_complete(s: EdmxV, t: TagV)
    requires
        last_piece(t.name, ':') == "EntityType"@,
    ensures
        (s.open(t, true) == EdmxV { types: s.open(t, true).types, ..s }),
{
    reveal_strlit("EntityType");
    reveal_strlit("ComplexType");
    reveal_strlit("EntitySet");
    assert("EntityType"@.len() == 10 && "ComplexType"@.len() == 11 && "EntitySet"@.len() == 9);
}

/// Nor is anything of a complex type or a key that begins and ends at once.
pub proof fn empty_elements_leave_no_trace(s: EdmxV, t: TagV)
    requires
        last_piece(t.name, ':') == "ComplexType"@ || last_piece(t.name, ':') == "Key"@,
    ensures
        s.open(t, true) == s,
{
    reveal_strlit("EntityType");
    reveal_strlit("ComplexType");
    reveal_strlit("EntitySet");
    reveal_strlit("Key");
    assert("EntityType"@.len() == 10 && "ComplexType"@.len() == 11 && "EntitySet"@.len() == 9);
    assert("Key"@.len() == 3);
}

/// A named property of an entity type is kept.
pub proof fn own_properties_are_kept(s: EdmxV, t: TagV, self_closing: bool, n: Seq<char>)
    requires
        s.cur_type is Some,
        !s.in_complex,
        last_piece(t.name, ':') == "Property"@,
        attr(t.attributes, "Name"@) == Some(n),
    ensures
        (s.open(t, self_closing) == EdmxV {
            cur_props: s.cur_props.push(property_object(n, t)),
            ..s
        }),
{
    reveal_strlit("Property");
    reveal_strlit("ComplexType");
    reveal_strlit("EntitySet");
    reveal_strlit("EntityType");
    reveal_strlit("Key");
    reveal_strlit("PropertyRef");
    assert("Property"@.len() == 8 && "ComplexType"@.len() == 11 && "EntitySet"@.len() == 9);
    assert("EntityType"@.len() == 10 && "Key"@.len() == 3 && "PropertyRef"@.len() == 11);
}

/// The first attribute with a name that could be read is the one that counts.
pub proof fn the_first_attribute_counts(
    a: Seq<Option<AttributeV>>,
    name: Seq<char>,
    i: int,
    v: Seq<char>,
)
    requires
        0 <= i < a.len(),
        a[i] == Some(AttributeV { key: name, value: Some(v) }),
        forall|j: int|
            0 <= j < i ==> !((#[trigger] a[j]) matches Some(x) && x.key == name && x.value is Some),
    ensures
        attr(a, name) == Some(v),
    decreases a.len(),
{
    if i > 0 {
        let t = a.drop_first();
        assert(!(a[0] matches Some(x) && x.key == name && x.value is Some));
        assert forall|j: int| 0 <= j < i - 1 implies !((#[trigger] t[j]) matches Some(x) && x.key
            == name && x.value is Some) by {
            assert(t[j] == a[j + 1]);
        }
        the_first_attribute_counts(t, name, i - 1, v);
    }
}

/// An attribute that is not there has no value.
pub proof fn absent_attributes_have_no_value(a: Seq<Option<AttributeV>>, name: Seq<char>)
    requires
        forall|j: int|
            0 <= j < a.len() ==> !((#[trigger] a[j]) matches Some(x) && x.key == name && x.value is Some),
    ensures
        attr(a, name) is None,
    decreases a.len(),
{
    if a.len() > 0 {
        let t = a.drop_first();
        assert(!(a[0] matches Some(x) && x.key == name && x.value is Some));
        assert forall|j: int| 0 <= j < t.len() implies !((#[trigger] t[j]) matches Some(x) && x.key
            == name && x.value is Some) by {
            assert(t[j] == a[j + 1]);
        }
        absent_attributes_have_no_value(t, name);
    }
}

proof fn lemma_element_names()
    ensures
        "ComplexType"@ != "EntitySet"@,
        "ComplexType"@ != "EntityType"@,
        "ComplexType"@ != "Key"@,
        "ComplexType"@ != "PropertyRef"@,
        "ComplexType"@ != "Property"@,
        "EntitySet"@ != "EntityType"@,
        "EntitySet"@ != "Key"@,
        "EntitySet"@ != "PropertyRef"@,
        "EntitySet"@ != "Property"@,
        "EntityType"@ != "Key"@,
        "EntityType"@ != "PropertyRef"@,
        "EntityType"@ != "Property"@,
        "Key"@ != "PropertyRef"@,
        "Key"@ != "Property"@,
        "PropertyRef"@ != "Property"@,
{
    reveal_strlit("ComplexType");
    reveal_strlit("EntitySet");
    reveal_strlit("EntityType");
    reveal_strlit("Key");
    reveal_strlit("PropertyRef");
    reveal_strlit("Property");
    assert("ComplexType"@.len() == 11);
    assert("EntitySet"@.len() == 9);
    assert("EntityType"@.len() == 10);
    assert("Key"@.len() == 3);
    assert("PropertyRef"@.len() == 11);
    assert("Property"@.len() == 8);
    assert("ComplexType"@[0] != "PropertyRef"@[0]);
}

proof fn lemma_member_names()
    ensures
        "name"@ != "type"@,
        "name"@ != "nullable"@,
        "name"@ != "max_length"@,
        "name"@ != "properties"@,
        "name"@ != "keys"@,
        "name"@ != "base_type"@,
        "name"@ != "entity_sets"@,
        "name"@ != "entity_types"@,
        "type"@ != "nullable"@,
        "type"@ != "max_length"@,
        "type"@ != "properties"@,
        "type"@ != "keys"@,
        "type"@ != "base_type"@,
        "type"@ != "entity_sets"@,
        "type"@ != "entity_types"@,
        "nullable"@ != "max_length"@,
        "nullable"@ != "properties"@,
        "nullable"@ != "keys"@,
        "nullable"@ != "base_type"@,
        "nullable"@ != "entity_sets"@,
        "nullable"@ != "entity_types"@,
        "max_length"@ != "properties"@,
        "max_length"@ != "keys"@,
        "max_length"@ != "base_type"@,
        "max_length"@ != "entity_sets"@,
        "max_length"@ != "entity_types"@,
        "properties"@ != "keys"@,
        "properties"@ != "base_type"@,
        "properties"@ != "entity_sets"@,
        "properties"@ != "entity_types"@,
        "keys"@ != "base_type"@,
        "keys"@ != "entity_sets"@,
        "keys"@ != "entity_types"@,
        "base_type"@ != "entity_sets"@,
        "base_type"@ != "entity_types"@,
        "entity_sets"@ != "entity_types"@,
{
    reveal_strlit("name");
    reveal_strlit("type");
    reveal_strlit("nullable");
    reveal_strlit("max_length");
    reveal_strlit("properties");
    reveal_strlit("keys");
    reveal_strlit("base_type");
    reveal_strlit("entity_sets");
    reveal_strlit("entity_types");
    assert("name"@.len() == 4);
    assert("type"@.len() == 4);
    assert("nullable"@.len() == 8);
    assert("max_length"@.len() == 10);
    assert("properties"@.len() == 10);
    assert("keys"@.len() == 4);
    assert("base_type"@.len() == 9);
    assert("entity_sets"@.len() == 11);
    assert("entity_types"@.len() == 12);
    assert("name"@[0] != "type"@[0]);
    assert("name"@[0] != "keys"@[0]);
    assert("type"@[0] != "keys"@[0]);
    assert("max_length"@[0] != "properties"@[0]);
}

/// What was found after events.
pub open spec fn played(s: EdmxV, events: Seq<EventV>) -> EdmxV
    decreases events.len(),
{
    if events.len() == 0 {
        s
    } else {
        played(s, events.drop_last()).step(events.last())
    }
}

/// Elements that begin and end at once, as events.
pub open spec fn empties(tags: Seq<TagV>) -> Seq<EventV> {
    Seq::new(tags.len(), |i: int| EventV::Empty(tags[i]))
}

/// Whether elements are of a kind, with these names.
pub open spec fn all_named(tags: Seq<TagV>, element: Seq<char>, names: Seq<Seq<char>>) -> bool {
    &&& tags.len() == names.len()
    &&& forall|i: int|
        0 <= i < tags.len() ==> last_piece((#[trigger] tags[i]).name, ':') == element && attr(
            tags[i].attributes,
            "Name"@,
        ) == Some(names[i])
}

/// Inside a key, every reference to a property adds its name behind the others, and changes
/// nothing else.
pub proof fn references_add_to_the_key(s: EdmxV, t: TagV, self_closing: bool, n: Seq<char>)
    requires
        s.in_key,
        last_piece(t.name, ':') == "PropertyRef"@,
        attr(t.attributes, "Name"@) == Some(n),
    ensures
        (s.open(t, self_closing) == EdmxV { cur_keys: s.cur_keys.push(n), ..s }),
{
    lemma_element_names();
}

/// Outside a key a reference to a property changes nothing.
pub proof fn references_elsewhere_are_no_keys(s: EdmxV, t: TagV, self_closing: bool)
    requires
        !s.in_key,
        last_piece(t.name, ':') == "PropertyRef"@,
    ensures
        s.open(t, self_closing) == s,
{
    lemma_element_names();
}

/// The references inside a key come to its parts: all of them, in their order.
pub proof fn keys_are_all_references(s: EdmxV, refs: Seq<TagV>, names: Seq<Seq<char>>)
    requires
        s.in_key,
        all_named(refs, "PropertyRef"@, names),
    ensures
        (played(s, empties(refs)) == EdmxV { cur_keys: s.cur_keys + names, ..s }),
    decreases refs.len(),
{
    let e = empties(refs);
    if refs.len() == 0 {
        assert(s.cur_keys + names =~= s.cur_keys);
    } else {
        let r = refs.drop_last();
        let n = names.drop_last();
        assert(e.drop_last() =~= empties(r));
        assert forall|i: int| 0 <= i < r.len() implies last_piece((#[trigger] r[i]).name, ':')
            == "PropertyRef"@ && attr(r[i].attributes, "Name"@) == Some(n[i]) by {
            assert(r[i] == refs[i]);
        }
        keys_are_all_references(s, r, n);
        let mid = played(s, empties(r));
        assert(last_piece(refs[refs.len() - 1].name, ':') == "PropertyRef"@);
        references_add_to_the_key(mid, refs.last(), true, names.last());
        assert((s.cur_keys + n).push(names.last()) =~= s.cur_keys + names);
    }
}

/// The properties that elements describe.
pub open spec fn property_objects(tags: Seq<TagV>, names: Seq<Seq<char>>) -> Seq<JsonV> {
    Seq::new(tags.len(), |i: int| property_object(names[i], tags[i]))
}

/// The properties inside an entity type are all kept, in their order.
pub proof fn types_keep_all_properties(s: EdmxV, props: Seq<TagV>, names: Seq<Seq<char>>)
    requires
        s.cur_type is Some,
        !s.in_complex,
        all_named(props, "Property"@, names),
    ensures
        (played(s, empties(props)) == EdmxV {
            cur_props: s.cur_props + property_objects(props, names),
            ..s
        }),
    decreases props.len(),
{
    let e = empties(props);
    let o = property_objects(props, names);
    if props.len() == 0 {
        assert(s.cur_props + o =~= s.cur_props);
    } else {
        let r = props.drop_last();
        let n = names.drop_last();
        assert(e.drop_last() =~= empties(r));
        assert forall|i: int| 0 <= i < r.len() implies last_piece((#[trigger] r[i]).name, ':')
            == "Property"@ && attr(r[i].attributes, "Name"@) == Some(n[i]) by {
            assert(r[i] == props[i]);
        }
        types_keep_all_properties(s, r, n);
        let mid = played(s, empties(r));
        assert(last_piece(props[props.len() - 1].name, ':') == "Property"@);
        own_properties_are_kept(mid, props.last(), true, names.last());
        assert((s.cur_props + property_objects(r, n)).push(
            property_object(names.last(), props.last()),
        ) =~= s.cur_props + o);
    }
}

/// What is kept of a property: its name, its type without the namespace, whether it may be
/// null, and its largest length.
pub proof fn properties_hold_their_attributes(name: Seq<char>, t: TagV)
    ensures
        property_object(name, t).get("name"@) == Some(JsonV::Str(name)),
        attr(t.attributes, "Type"@) matches Some(ty) ==> property_object(name, t).get("type"@)
            == Some(JsonV::Str(last_piece(ty, '.'))),
        property_object(name, t).get("nullable"@) == Some(
            JsonV::Bool(attr(t.attributes, "Nullable"@) != Some("false"@)),
        ),
        attr(t.attributes, "MaxLength"@) matches Some(n) ==> property_object(name, t).get(
            "max_length"@,
        ) == Some(JsonV::Str(n)),
        attr(t.attributes, "MaxLength"@) is None ==> property_object(name, t).get("max_length"@)
            == Some(JsonV::Null),
{
    broadcast use put_is_found;

    lemma_member_names();
}

/// An entity type comes to what stands between its beginning and its end: its keys are all
/// references of its key, in their order, its properties all its properties, and its base is
/// the one that it names. The other types and the entity sets stay as they are.
pub proof fn types_hold_their_keys_and_properties(
    s: EdmxV,
    n: Seq<char>,
    t: TagV,
    key: TagV,
    refs: Seq<TagV>,
    parts: Seq<Seq<char>>,
    props: Seq<TagV>,
    names: Seq<Seq<char>>,
    key_end: Seq<char>,
    type_end: Seq<char>,
    other: Seq<char>,
)
    requires
        !s.in_complex,
        last_piece(t.name, ':') == "EntityType"@,
        attr(t.attributes, "Name"@) == Some(n),
        last_piece(key.name, ':') == "Key"@,
        last_piece(key_end, ':') == "Key"@,
        last_piece(type_end, ':') == "EntityType"@,
        all_named(refs, "PropertyRef"@, parts),
        all_named(props, "Property"@, names),
    ensures
        ({
            let r = played(
                played(
                    played(s, seq![EventV::Start(t), EventV::Start(key)] + empties(refs)),
                    seq![EventV::End(key_end)] + empties(props),
                ),
                seq![EventV::End(type_end)],
            );
            &&& r.sets == s.sets
            &&& r.cur_type is None
            &&& other != n ==> find(r.types, other) == find(s.types, other)
            &&& find(r.types, n) matches Some(o) && o.get("keys"@) == Some(
                JsonV::Arr(Seq::new(parts.len(), |i: int| JsonV::Str(parts[i]))),
            ) && o.get("properties"@) == Some(JsonV::Arr(property_objects(props, names))) && (attr(
                t.attributes,
                "BaseType"@,
            ) matches Some(b) ==> o.get("base_type"@) == Some(JsonV::Str(last_piece(b, '.'))))
                && (attr(t.attributes, "BaseType"@) is None ==> o.get("base_type"@) is None)
        }),
{
    broadcast use put_is_found;

    lemma_element_names();
    lemma_member_names();
    let a = s.open(t, false);
    let b = a.open(key, false);
    lemma_played_front(s, EventV::Start(t), seq![EventV::Start(key)] + empties(refs));
    lemma_played_front(a, EventV::Start(key), empties(refs));
    assert(seq![EventV::Start(t), EventV::Start(key)] + empties(refs) =~= seq![EventV::Start(t)] + (
    seq![EventV::Start(key)] + empties(refs)));
    keys_are_all_references(b, refs, parts);
    assert(b.cur_keys + parts =~= parts);
    let c = EdmxV { cur_keys: parts, ..b };
    let d = c.close(key_end);
    lemma_played_front(c, EventV::End(key_end), empties(props));
    types_keep_all_properties(d, props, names);
    let e = EdmxV { cur_props: d.cur_props + property_objects(props, names), ..d };
    assert(d.cur_props + property_objects(props, names) =~= property_objects(props, names));
    lemma_played_front(e, EventV::End(type_end), Seq::empty());
    assert(seq![EventV::End(type_end)] + Seq::<EventV>::empty() =~= seq![EventV::End(type_end)]);
    assert(str_values(parts) =~= Seq::new(parts.len(), |i: int| JsonV::Str(parts[i])));
}

proof fn lemma_played_front(s: EdmxV, e: EventV, rest: Seq<EventV>)
    ensures
        played(s, seq![e] + rest) == played(s.step(e), rest),
    decreases rest.len(),
{
    let all = seq![e] + rest;
    if rest.len() == 0 {
        assert(all.drop_last() =~= Seq::<EventV>::empty());
        assert(played(s, all.drop_last()) == s);
    } else {
        lemma_played_front(s, e, rest.drop_last());
        assert(all.drop_last() =~= seq![e] + rest.drop_last());
    }
}

/// Every named entity set is kept, behind those before it, and nothing else changes.
pub proof fn sets_are_all_kept(s: EdmxV, t: TagV, self_closing: bool, n: Seq<char>)
    requires
        last_piece(t.name, ':') == "EntitySet"@,
        attr(t.attributes, "Name"@) == Some(n),
    ensures
        (s.open(t, self_closing) == EdmxV { sets: s.sets.push(set_object(n, t)), ..s }),
{
    lemma_element_names();
}

/// A document comes to what was found in it up to its end, and a fault in it to an error.
pub proof fn documents_come_to_what_was_found(s: EdmxV, events: Seq<EventV>, fault: Seq<char>)
    requires
        forall|i: int| 0 <= i < events.len() ==> !(#[trigger] events[i]).ends(),
    ensures
        edmx_outcome(s, events.push(EventV::Eof)) matches Ok(v) && v.get("entity_sets"@) == Some(
            JsonV::Arr(played(s, events).sets),
        ) && v.get("entity_types"@) == Some(JsonV::Obj(played(s, events).types)),
        edmx_outcome(s, events.push(EventV::Failed(fault))) == Err::<JsonV, Seq<char>>(
            "metadata xml error: "@ + fault,
        ),
    decreases events.len(),
{
    broadcast use put_is_found;

    lemma_member_names();
    let a = events.push(EventV::Eof);
    let b = events.push(EventV::Failed(fault));
    if events.len() == 0 {
        assert(a[0] == EventV::Eof && b[0] == EventV::Failed(fault));
    } else {
        let e = events[0];
        let rest = events.drop_first();
        assert(!events[0].ends());
        assert forall|i: int| 0 <= i < rest.len() implies !(#[trigger] rest[i]).ends() by {
            assert(rest[i] == events[i + 1]);
        }
        assert(a.drop_first() =~= rest.push(EventV::Eof));
        assert(b.drop_first() =~= rest.push(EventV::Failed(fault)));
        documents_come_to_what_was_found(s.step(e), rest, fault);
        lemma_played_front(s, e, rest);
        assert(seq![e] + rest =~= events);
    }
}

/// Whether an element is one that metadata is read from.
pub open spec fn read_element(local: Seq<char>) -> bool {
    local == "ComplexType"@ || local == "EntitySet"@ || local == "EntityType"@ || local == "Key"@
        || local == "PropertyRef"@ || local == "Property"@
}

/// Every other element changes nothing, where it begins and where it ends.
pub proof fn other_elements_change_nothing(s: EdmxV, t: TagV, self_closing: bool, end: Seq<char>)
    requires
        !read_element(last_piece(t.name, ':')),
        !read_element(last_piece(end, ':')),
    ensures
        s.open(t, self_closing) == s,
        s.close(end) == s,
        s.step(EventV::Other) == s,
{
}

/// A key and a complex type last until they end.
pub proof fn keys_and_complex_types_end(s: EdmxV, t: TagV, end: Seq<char>)
    requires
        last_piece(t.name, ':') == last_piece(end, ':'),
    ensures
        last_piece(end, ':') == "Key"@ ==> s.open(t, false).in_key && !s.close(end).in_key,
        last_piece(end, ':') == "ComplexType"@ ==> s.open(t, false).in_complex && !s.close(
            end,
        ).in_complex,
{
    lemma_element_names();
}

/// An entity type that begins and ends at once is kept, without keys and properties.
pub proof fn empty_types_are_kept(s: EdmxV, t: TagV, n: Seq<char>)
    requires
        last_piece(t.name, ':') == "EntityType"@,
        attr(t.attributes, "Name"@) == Some(n),
    ensures
        find(s.open(t, true).types, n) matches Some(o) && o.get("keys"@) == Some(
            JsonV::Arr(Seq::empty()),
        ) && o.get("properties"@) == Some(JsonV::Arr(Seq::empty())),
{
    broadcast use put_is_found;

    lemma_element_names();
    lemma_member_names();
    assert(str_values(Seq::empty()) =~= Seq::<JsonV>::empty());
}

/// An attribute that could be read is there, with its name and its value.
pub proof fn attributes_are_kept(x: XmlAttribute)
    ensures
        attribute_of(Some(x)) matches Some(a) && a.key == x.key@ && a.value == opt_text(x.value),
        attribute_of(None) is None,
{
}

} // verus!
