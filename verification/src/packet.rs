//! Packet classes, their registry, packet instances and the rules that
//! chain one layer to the next.

use std::borrow::Cow;
use std::collections::HashMap;
use vstd::pervasive::unreached;
use vstd::prelude::*;
use vstd::string::StringExecFns;

use crate::error::PacketError;
use crate::fields::{
    addfield_spec, any2i_spec, cow_bytes, getfield_spec, FieldKind, FieldList, FieldProxy,
    FieldSpec, FieldTrait, FieldType, StrField,
};
use crate::namemap::NameMap;
use crate::types::{
    view_opt, view_opt_host, view_opt_ref, HostModel, HostValue, InternalType, SemanticValue,
};
use crate::utils::{generate_uuid, uuid_text};

verus! {

broadcast use vstd::std_specs::hash::group_hash_axioms;

/// The identifier of the catch-all class, which every registry holds from
/// the start.
pub const RAW: usize = 0;

/// How many layers dissection follows below the one it was asked for. What
/// lies deeper is kept as the raw bytes it is.
pub const MAX_LAYERS: usize = 64;

/// A payload-guess rule as mathematics sees it: the values that fields of
/// the lower layer must have, or none where the rule always applies, and
/// the class that it then selects.
pub struct RuleSpec {
    pub condition: Option<Map<Seq<char>, SemanticValue>>,
    pub upper: nat,
}

/// A packet class as mathematics sees it.
pub struct ClassSpec {
    pub name: Seq<char>,
    pub uuid: Seq<char>,
    /// The layout, in wire order.
    pub fields: Seq<FieldSpec>,
    /// The payload-guess rules, in the order in which they were bound.
    pub rules: Seq<RuleSpec>,
    /// For the identifier of a lower class, the values forced onto an
    /// instance of this class that is attached beneath one of that class.
    pub overloads: Map<nat, Map<Seq<char>, SemanticValue>>,
}

/// A packet instance as mathematics sees it.
pub struct PacketModel {
    pub class: nat,
    /// The values set explicitly, by the caller or by dissection.
    pub fields: Map<Seq<char>, Option<SemanticValue>>,
    /// The defaults that the class declares.
    pub defaults: Map<Seq<char>, Option<SemanticValue>>,
    /// The values forced by the layer that this one is attached beneath.
    pub overloaded: Map<Seq<char>, SemanticValue>,
    pub payload: Option<Box<PacketModel>>,
}

/// The views of the values of a map.
pub open spec fn view_values(m: Map<Seq<char>, InternalType>) -> Map<Seq<char>, SemanticValue> {
    m.map_values(|v: InternalType| v@)
}

/// The views of the values of a map whose values may be absent.
pub open spec fn view_slots(m: Map<Seq<char>, Option<InternalType>>) -> Map<
    Seq<char>,
    Option<SemanticValue>,
> {
    m.map_values(|v: Option<InternalType>| view_opt(v))
}

/// The views of a caller's values.
pub open spec fn view_hosts(m: Map<Seq<char>, HostValue>) -> Map<Seq<char>, HostModel> {
    m.map_values(|v: HostValue| v@)
}

/// The views of a layout's descriptors.
pub open spec fn view_fields<E>(fields: Seq<FieldProxy<E>>) -> Seq<FieldSpec> {
    Seq::new(fields.len(), |i: int| fields[i]@)
}

/// Position of the first field named `name` at or after `from`.
pub open spec fn find_field(fields: Seq<FieldSpec>, name: Seq<char>, from: int) -> Option<int>
    decreases fields.len() - from,
{
    if from < 0 || from >= fields.len() {
        None
    } else if fields[from].name == name {
        Some(from)
    } else {
        find_field(fields, name, from + 1)
    }
}

/// Whether the field that `name` refers to, if there is one, is built in.
pub open spec fn named_builtin(fields: Seq<FieldSpec>, name: Seq<char>) -> bool {
    match find_field(fields, name, 0) {
        Some(i) => fields[i].kind != FieldKind::Extension,
        None => true,
    }
}

/// The layout of the catch-all class: one byte string named `load`, whose
/// default is the empty string.
pub open spec fn raw_fields() -> Seq<FieldSpec> {
    seq![
        FieldSpec {
            name: "load"@,
            default: Some(SemanticValue::Bytes(Seq::empty())),
            sz: 0,
            kind: FieldKind::Str,
            remain: None,
        },
    ]
}

/// Every field of the layout is a built-in one.
pub open spec fn builtin_layout(fields: Seq<FieldSpec>) -> bool {
    forall|i: int| 0 <= i < fields.len() ==> (#[trigger] fields[i]).kind != FieldKind::Extension
}

/// Every class is made of built-in fields only.
pub open spec fn all_builtin(reg: Seq<ClassSpec>) -> bool {
    forall|c: int| 0 <= c < reg.len() ==> builtin_layout(#[trigger] reg[c].fields)
}

/// Every layer of the instance is of a class made of built-in fields only.
pub open spec fn builtin_chain(reg: Seq<ClassSpec>, p: PacketModel) -> bool
    decreases p,
{
    &&& builtin_layout(reg[p.class as int].fields)
    &&& match p.payload {
        Some(q) => builtin_chain(reg, *q),
        None => true,
    }
}

/// A registry is well formed when it holds the catch-all class at `RAW`
/// and every rule selects a class that the registry holds.
pub open spec fn registry_wf(reg: Seq<ClassSpec>) -> bool {
    &&& reg.len() > RAW
    &&& reg[RAW as int].fields == raw_fields()
    &&& forall|c: int, r: int|
        0 <= c < reg.len() && 0 <= r < reg[c].rules.len() ==> (#[trigger] reg[c].rules[r]).upper
            < reg.len()
}

impl PacketModel {
    /// The value that a field name resolves to: the explicitly set value,
    /// else the forced one, else the class default, else what the payload
    /// chain resolves it to.
    pub open spec fn lookup(self, name: Seq<char>) -> Result<Option<SemanticValue>, PacketError>
        decreases self,
    {
        if self.fields.contains_key(name) {
            Ok(self.fields[name])
        } else if self.overloaded.contains_key(name) {
            Ok(Some(self.overloaded[name]))
        } else if self.defaults.contains_key(name) {
            Ok(self.defaults[name])
        } else {
            match self.payload {
                Some(p) => p.lookup(name),
                None => Err(PacketError::UnknownField),
            }
        }
    }

    /// Whether every field that `m` names resolves to the value that `m`
    /// records for it.
    pub open spec fn holds_all(self, m: Map<Seq<char>, SemanticValue>) -> bool {
        forall|k: Seq<char>|
            #![trigger m.contains_key(k)]
            m.contains_key(k) ==> self.lookup(k) == Ok::<Option<SemanticValue>, PacketError>(
                Some(m[k]),
            )
    }

    /// Whether a rule's condition holds of this instance: there is none, or
    /// every field it names resolves to the value it records.
    pub open spec fn satisfies(self, condition: Option<Map<Seq<char>, SemanticValue>>) -> bool {
        match condition {
            None => true,
            Some(m) => self.holds_all(m),
        }
    }

    /// Position of the first rule at or after `from` whose condition holds.
    pub open spec fn first_match(self, rules: Seq<RuleSpec>, from: int) -> Option<int>
        decreases rules.len() - from,
    {
        if from < 0 || from >= rules.len() {
            None
        } else if self.satisfies(rules[from].condition) {
            Some(from)
        } else {
            self.first_match(rules, from + 1)
        }
    }

    /// The class that the rules select for the payload of this instance:
    /// that of the first rule whose condition holds, the catch-all class
    /// where none does.
    pub open spec fn guess(self, rules: Seq<RuleSpec>) -> nat {
        match self.first_match(rules, 0) {
            Some(i) => rules[i].upper,
            None => RAW as nat,
        }
    }

    /// This instance as it is once attached beneath an instance of class
    /// `lower`: its forced values are those that its own class's overload
    /// table records for `lower`, where it records any.
    pub open spec fn beneath(self, reg: Seq<ClassSpec>, lower: nat) -> PacketModel {
        match forced(reg, self.class, lower) {
            Some(m) => PacketModel { overloaded: m, ..self },
            None => self,
        }
    }

    /// This instance with `payload` attached at the end of its payload
    /// chain.
    pub open spec fn add_payload(self, reg: Seq<ClassSpec>, payload: PacketModel) -> PacketModel
        decreases self,
    {
        match self.payload {
            Some(p) => PacketModel {
                payload: Some(Box::new(p.add_payload(reg, payload))),
                ..self
            },
            None => PacketModel {
                payload: Some(Box::new(payload.beneath(reg, self.class))),
                ..self
            },
        }
    }

    /// How many layers the instance has.
    pub open spec fn layers(self) -> nat
        decreases self,
    {
        match self.payload {
            Some(p) => 1 + p.layers(),
            None => 1,
        }
    }
}

/// A registered packet class: its layout and the rules bound to it.
#[derive(Debug)]
pub struct PacketClass<E> {
    name: String,
    fields_desc: FieldList<E>,
    _uuid: String,
    payload_guess: Vec<(Option<NameMap<InternalType>>, PacketClassProxy)>,
    _overload_fields: HashMap<usize, NameMap<InternalType>>,
}

/// A cheap, copyable reference to a registered packet class.
#[derive(Clone, Copy, Debug, PartialEq, Eq, Structural)]
pub struct PacketClassProxy {
    id: usize,
}

/// The store of packet classes. A class, once registered, stays for good,
/// and its identifier is never given to another.
#[derive(Debug)]
pub struct Registry<E> {
    classes: Vec<PacketClass<E>>,
}

/// One layer of a packet: the values of its class's fields, and the layer
/// it carries, if any.
#[derive(Debug)]
pub struct Packet {
    proxy: PacketClassProxy,
    fields: NameMap<Option<InternalType>>,
    default_fields: NameMap<Option<InternalType>>,
    overloaded_fields: NameMap<InternalType>,
    payload: Option<Box<Packet>>,
}

pub open spec fn view_rule(rule: (Option<NameMap<InternalType>>, PacketClassProxy)) -> RuleSpec {
    RuleSpec {
        condition: match rule.0 {
            Some(m) => Some(view_values(m@)),
            None => None,
        },
        upper: rule.1.id(),
    }
}

impl<E> View for PacketClass<E> {
    type V = ClassSpec;

    closed spec fn view(&self) -> ClassSpec {
        ClassSpec {
            name: self.name@,
            uuid: self._uuid@,
            fields: view_fields(self.fields_desc@),
            rules: Seq::new(self.payload_guess@.len(), |i: int| view_rule(self.payload_guess@[i])),
            overloads: Map::new(
                |k: nat| k <= usize::MAX && self._overload_fields@.contains_key(k as usize),
                |k: nat| view_values(self._overload_fields@[k as usize]@),
            ),
        }
    }
}

impl<E> View for Registry<E> {
    type V = Seq<ClassSpec>;

    closed spec fn view(&self) -> Seq<ClassSpec> {
        Seq::new(self.classes@.len(), |i: int| self.classes@[i]@)
    }
}

impl View for Packet {
    type V = PacketModel;

    closed spec fn view(&self) -> PacketModel
        decreases self,
    {
        PacketModel {
            class: self.proxy.id(),
            fields: view_slots(self.fields@),
            defaults: view_slots(self.default_fields@),
            overloaded: view_values(self.overloaded_fields@),
            payload: match self.payload {
                Some(p) => Some(Box::new((*p).view())),
                None => None,
            },
        }
    }
}

pub open spec fn view_found(r: Result<Option<&InternalType>, PacketError>) -> Result<
    Option<SemanticValue>,
    PacketError,
> {
    match r {
        Ok(v) => Ok(view_opt_ref(v)),
        Err(e) => Err(e),
    }
}

impl<E> PacketClass<E> {
    /// The descriptors of the layout as they were registered, with all
    /// that their field types hold.
    pub closed spec fn layout(&self) -> Seq<FieldProxy<E>> {
        self.fields_desc@
    }

    /// The layout that the view of the class shows is that of its
    /// descriptors.
    pub proof fn lemma_layout(&self)
        ensures
            self@.fields == view_fields(self.layout()),
    {
    }

    /// The descriptor of the field named `attr`: the first one of that
    /// name in the layout.
    pub fn get_field(&self, attr: &String) -> (r: Result<&FieldProxy<E>, PacketError>)
        ensures
            match find_field(self@.fields, attr@, 0) {
                Some(i) => r matches Ok(f) && *f == self.layout()[i] && f@ == self@.fields[i],
                None => r matches Err(e) && e == PacketError::UnknownField,
            },
    {
        let mut i: usize = 0;
        while i < self.fields_desc.len()
            invariant
                i <= self.fields_desc@.len(),
                find_field(self@.fields, attr@, 0) == find_field(self@.fields, attr@, i as int),
            decreases self.fields_desc@.len() - i,
        {
            if self.fields_desc[i].name == *attr {
                return Ok(&self.fields_desc[i]);
            }
            i = i + 1;
        }
        Err(PacketError::UnknownField)
    }

    /// The display name of the class.
    pub fn name(&self) -> (r: &String)
        ensures
            r@ == self@.name,
    {
        &self.name
    }

    /// The identifier text that the class was given when it was registered.
    pub fn uuid(&self) -> (r: &String)
        ensures
            r@ == self@.uuid,
    {
        &self._uuid
    }

    /// The layout of the class.
    pub fn fields_desc(&self) -> (r: &FieldList<E>)
        ensures
            r@ == self.layout(),
            view_fields(r@) == self@.fields,
    {
        &self.fields_desc
    }

    /// The payload-guess rules of the class, in the order in which they
    /// were bound.
    pub fn payload_guess(&self) -> (r: &Vec<(Option<NameMap<InternalType>>, PacketClassProxy)>)
        ensures
            r@.len() == self@.rules.len(),
            forall|i: int| 0 <= i < r@.len() ==> view_rule(#[trigger] r@[i]) == self@.rules[i],
    {
        &self.payload_guess
    }

    /// The values that the class forces onto its instances, by the
    /// identifier of the class that they are attached beneath.
    pub fn overload_fields(&self) -> (r: &HashMap<usize, NameMap<InternalType>>)
        ensures
            forall|k: usize| #[trigger]
                r@.contains_key(k) <==> self@.overloads.contains_key(k as nat),
            forall|k: usize| #[trigger]
                r@.contains_key(k) ==> view_values(r@[k]@) == self@.overloads[k as nat],
    {
        &self._overload_fields
    }
}

impl PacketClassProxy {
    /// The identifier of the class that this handle refers to.
    pub closed spec fn id(self) -> nat {
        self.id as nat
    }

    /// The identifier of the class that this handle refers to.
    pub fn index(&self) -> (i: usize)
        ensures
            i == self.id(),
    {
        self.id
    }
}

/// The values that the overload table of class `upper` forces onto an
/// instance attached beneath an instance of class `lower`, if it records
/// any.
pub open spec fn forced(reg: Seq<ClassSpec>, upper: nat, lower: nat) -> Option<
    Map<Seq<char>, SemanticValue>,
> {
    if upper < reg.len() && reg[upper as int].overloads.contains_key(lower) {
        Some(reg[upper as int].overloads[lower])
    } else {
        None
    }
}

/// The defaults that the first `n` fields of a layout declare, by name.
/// Where two fields share a name, the later one counts.
pub open spec fn class_defaults(fields: Seq<FieldSpec>, n: nat) -> Map<
    Seq<char>,
    Option<SemanticValue>,
>
    decreases n,
{
    if n == 0 {
        Map::empty()
    } else {
        class_defaults(fields, (n - 1) as nat).insert(fields[n - 1].name, fields[n - 1].default)
    }
}

/// An instance of a class with nothing set and no payload.
pub open spec fn fresh(reg: Seq<ClassSpec>, class: nat) -> PacketModel {
    PacketModel {
        class,
        fields: Map::empty(),
        defaults: class_defaults(reg[class as int].fields, reg[class as int].fields.len()),
        overloaded: Map::empty(),
        payload: None,
    }
}

/// The instance `p` after the field `name` was set to what a caller handed
/// in. The name has to be that of a field of the layout. Where the caller
/// hands in no value, the instance records that the field holds none.
pub open spec fn set_spec(
    fields: Seq<FieldSpec>,
    p: PacketModel,
    name: Seq<char>,
    val: Option<HostModel>,
) -> Result<PacketModel, PacketError> {
    match find_field(fields, name, 0) {
        None => Err(PacketError::UnknownField),
        Some(i) => match val {
            None => Ok(PacketModel { fields: p.fields.insert(name, None), ..p }),
            Some(h) => match any2i_spec(fields[i].kind, Some(h)) {
                Ok(v) => Ok(PacketModel { fields: p.fields.insert(name, Some(v)), ..p }),
                Err(e) => Err(e),
            },
        },
    }
}

proof fn lemma_view_slots_insert(
    m: Map<Seq<char>, Option<InternalType>>,
    k: Seq<char>,
    v: Option<InternalType>,
)
    ensures
        view_slots(m.insert(k, v)) == view_slots(m).insert(k, view_opt(v)),
{
    assert(view_slots(m.insert(k, v)) =~= view_slots(m).insert(k, view_opt(v)));
}

/// A copy of a value that may be absent.
fn clone_slot(v: &Option<InternalType>) -> (r: Option<InternalType>)
    ensures
        view_opt(r) == view_opt(*v),
{
    match v {
        Some(x) => Some(x.clone()),
        None => None,
    }
}

impl<E> Registry<E> {
    /// The registry holds the catch-all class, and every rule selects a
    /// class that the registry holds. Every registry that `new` made and
    /// the functions of this module changed is so.
    pub open spec fn wf(&self) -> bool {
        registry_wf(self@)
    }

    /// The classes that the registry holds, by identifier, with all that
    /// they hold.
    pub closed spec fn classes(&self) -> Seq<PacketClass<E>> {
        self.classes@
    }

    /// The layouts of the classes, by identifier, as they were registered.
    pub open spec fn layouts(&self) -> Seq<Seq<FieldProxy<E>>> {
        Seq::new(self.classes().len(), |i: int| self.classes()[i].layout())
    }

    /// The view of the registry shows its classes.
    pub proof fn lemma_classes(&self)
        ensures
            self@.len() == self.classes().len(),
            forall|i: int| 0 <= i < self@.len() ==> self@[i] == (#[trigger] self.classes()[i])@,
    {
    }
}

impl<E: FieldTrait> Registry<E> {
    /// A registry that holds the catch-all class and no other.
    pub fn new() -> (reg: Self)
        ensures
            reg.wf(),
            reg@.len() == 1,
            reg@[RAW as int].name == "Raw"@,
            reg@[RAW as int].rules.len() == 0,
            reg@[RAW as int].overloads == Map::<nat, Map<Seq<char>, SemanticValue>>::empty(),
            exists|nanos: u128| reg@[RAW as int].uuid == uuid_text(nanos),
    {
        let load = String::from_str("load");
        let nothing = HostValue::Bytes(Vec::new());
        let field = match StrField::new::<E>(load, Some(&nothing), None) {
            Ok(f) => f,
            Err(_) => {
                proof {
                    assert(false);
                }
                unreached()
            },
        };
        let mut fields_desc: FieldList<E> = Vec::new();
        fields_desc.push(field);
        let raw = PacketClass {
            name: String::from_str("Raw"),
            fields_desc,
            _uuid: generate_uuid(),
            payload_guess: Vec::new(),
            _overload_fields: HashMap::new(),
        };
        let mut classes: Vec<PacketClass<E>> = Vec::new();
        classes.push(raw);
        proof {
            assert(classes@[0]@.fields =~= raw_fields());
            assert(classes@[0]@.overloads =~= Map::<nat, Map<Seq<char>, SemanticValue>>::empty());
        }
        Registry { classes }
    }

    /// Whether the registry is well formed. It is, unless it was made by
    /// other means than `new` and the functions of this module.
    pub fn is_well_formed(&self) -> (b: bool)
        ensures
            b == self.wf(),
    {
        if self.classes.len() == 0 {
            return false;
        }
        let raw = &self.classes[RAW];
        if raw.fields_desc.len() != 1 {
            assert(raw@.fields.len() != raw_fields().len());
            return false;
        }
        let load = &raw.fields_desc[0];
        let named = load.name == String::from_str("load");
        let empty = match &load.default {
            Some(InternalType::Bytes(b)) => {
                proof {
                    if b@.len() == 0 {
                        assert(b@ =~= Seq::<u8>::empty());
                    }
                }
                b.len() == 0
            },
            _ => false,
        };
        assert(empty <==> view_opt(load.default) == Some(SemanticValue::Bytes(Seq::empty())));
        let string = match &load.fieldtype {
            FieldType::StrField(f) => f.remain().is_none(),
            _ => false,
        };
        if !(named && empty && string && load.sz == 0) {
            assert(raw@.fields[0] != raw_fields()[0]);
            return false;
        }
        proof {
            assert(raw@.fields =~= raw_fields());
        }
        let mut c: usize = 0;
        while c < self.classes.len()
            invariant
                c <= self.classes@.len(),
                self@.len() > RAW,
                self@[RAW as int].fields == raw_fields(),
                forall|d: int, r: int|
                    0 <= d < c && 0 <= r < self@[d].rules.len() ==> (
                    #[trigger] self@[d].rules[r]).upper < self@.len(),
            decreases self.classes@.len() - c,
        {
            let rules = &self.classes[c].payload_guess;
            let mut r: usize = 0;
            while r < rules.len()
                invariant
                    c < self.classes@.len(),
                    r <= rules@.len(),
                    rules == &self.classes@[c as int].payload_guess,
                    self@.len() > RAW,
                    forall|q: int|
                        0 <= q < r ==> (#[trigger] self@[c as int].rules[q]).upper < self@.len(),
                decreases rules@.len() - r,
            {
                if rules[r].1.id >= self.classes.len() {
                    assert(self@[c as int].rules[r as int].upper >= self@.len());
                    return false;
                }
                r = r + 1;
            }
            c = c + 1;
        }
        true
    }

    /// How many classes the registry holds.
    pub fn len(&self) -> (n: usize)
        ensures
            n == self@.len(),
    {
        self.classes.len()
    }

    /// Whether `proxy` refers to a class of this registry.
    pub fn contains(&self, proxy: &PacketClassProxy) -> (b: bool)
        ensures
            b == (proxy.id() < self@.len()),
    {
        proxy.id < self.classes.len()
    }

    /// The handle of the class with the identifier `id`, if the registry
    /// holds one.
    pub fn proxy(&self, id: usize) -> (r: Option<PacketClassProxy>)
        ensures
            match r {
                Some(proxy) => proxy.id() == id && id < self@.len(),
                None => id >= self@.len(),
            },
    {
        if id < self.classes.len() {
            Some(PacketClassProxy { id })
        } else {
            None
        }
    }

    /// The handle of the catch-all class.
    pub fn raw(&self) -> (proxy: PacketClassProxy)
        ensures
            proxy.id() == RAW,
    {
        PacketClassProxy { id: RAW }
    }
}

impl PacketClassProxy {
    /// Registers a class under the display name `name`, with the layout
    /// `fields_desc`, and gives back the handle to it. The class gets the
    /// next identifier that no class has had.
    pub fn new<E: FieldTrait>(reg: &mut Registry<E>, name: &str, fields_desc: FieldList<E>) -> (r:
        PacketClassProxy)
        requires
            old(reg).wf(),
        ensures
            r.id() == old(reg)@.len(),
            final(reg).wf(),
            final(reg)@.len() == old(reg)@.len() + 1,
            final(reg)@.drop_last() == old(reg)@,
            final(reg)@.last().name == name@,
            final(reg)@.last().fields == view_fields(fields_desc@),
            final(reg).layouts() == old(reg).layouts().push(fields_desc@),
            final(reg)@.last().rules.len() == 0,
            final(reg)@.last().overloads == Map::<nat, Map<Seq<char>, SemanticValue>>::empty(),
            exists|nanos: u128| final(reg)@.last().uuid == uuid_text(nanos),
    {
        let pclass = PacketClass {
            name: String::from_str(name),
            fields_desc,
            _uuid: generate_uuid(),
            payload_guess: Vec::new(),
            _overload_fields: HashMap::new(),
        };
        let pclassproxy = PacketClassProxy { id: reg.classes.len() };
        proof {
            assert(pclass@.overloads =~= Map::<nat, Map<Seq<char>, SemanticValue>>::empty());
        }
        reg.classes.push(pclass);
        proof {
            assert(reg.layouts() =~= old(reg).layouts().push(fields_desc@));
            assert(reg@.drop_last() =~= old(reg)@);
            assert(reg@[RAW as int] == old(reg)@[RAW as int]);
            assert forall|c: int, r: int|
                0 <= c < reg@.len() && 0 <= r < reg@[c].rules.len() implies (
            #[trigger] reg@[c].rules[r]).upper < reg@.len() by {
                assert(reg@[c] == old(reg)@[c]);
            }
        }
        pclassproxy
    }

    /// The class that this handle refers to.
    pub fn get_class<'a, E: FieldTrait>(&self, reg: &'a Registry<E>) -> (class: &'a PacketClass<E>)
        requires
            self.id() < reg@.len(),
        ensures
            *class == reg.classes()[self.id() as int],
            class@ == reg@[self.id() as int],
    {
        &reg.classes[self.id]
    }
}

impl Packet {
    /// The class of this layer.
    pub fn proxy(&self) -> (r: PacketClassProxy)
        ensures
            r.id() == self@.class,
    {
        self.proxy
    }

    /// The values set explicitly.
    pub fn fields(&self) -> (r: &NameMap<Option<InternalType>>)
        ensures
            view_slots(r@) == self@.fields,
    {
        &self.fields
    }

    /// The defaults that the class declares.
    pub fn default_fields(&self) -> (r: &NameMap<Option<InternalType>>)
        ensures
            view_slots(r@) == self@.defaults,
    {
        &self.default_fields
    }

    /// The values forced by the layer above.
    pub fn overloaded_fields(&self) -> (r: &NameMap<InternalType>)
        ensures
            view_values(r@) == self@.overloaded,
    {
        &self.overloaded_fields
    }

    /// The layer that this one carries, if any.
    pub fn payload(&self) -> (r: Option<&Packet>)
        ensures
            match r {
                Some(p) => self@.payload matches Some(q) && *q == p@,
                None => self@.payload is None,
            },
    {
        match &self.payload {
            Some(p) => Some(&**p),
            None => None,
        }
    }

    /// The descriptor of the field named `attr` in this layer's class.
    pub fn get_field<'a, E: FieldTrait>(&self, reg: &'a Registry<E>, attr: String) -> (r: Result<
        &'a FieldProxy<E>,
        PacketError,
    >)
        requires
            self@.class < reg@.len(),
        ensures
            match find_field(reg@[self@.class as int].fields, attr@, 0) {
                Some(i) => r matches Ok(f) && *f == reg.layouts()[self@.class as int][i] && f@
                    == reg@[self@.class as int].fields[i],
                None => r matches Err(e) && e == PacketError::UnknownField,
            },
    {
        self._get_field(reg, &attr)
    }

    fn _get_field<'a, E: FieldTrait>(&self, reg: &'a Registry<E>, attr: &String) -> (r: Result<
        &'a FieldProxy<E>,
        PacketError,
    >)
        requires
            self@.class < reg@.len(),
        ensures
            match find_field(reg@[self@.class as int].fields, attr@, 0) {
                Some(i) => r matches Ok(f) && *f == reg.layouts()[self@.class as int][i] && f@
                    == reg@[self@.class as int].fields[i],
                None => r matches Err(e) && e == PacketError::UnknownField,
            },
    {
        self.proxy.get_class(reg).get_field(attr)
    }

    /// The value that the field `attr` resolves to: the explicitly set
    /// value, else the forced one, else the class default, else what the
    /// payload chain resolves it to.
    pub fn getfieldval(&self, attr: String) -> (r: Result<Option<&InternalType>, PacketError>)
        ensures
            view_found(r) == self@.lookup(attr@),
    {
        self._getfieldval(&attr)
    }

    fn _getfieldval(&self, attr: &String) -> (r: Result<Option<&InternalType>, PacketError>)
        ensures
            view_found(r) == self@.lookup(attr@),
        decreases self,
    {
        match self.fields.get(attr) {
            Some(v) => Ok(v.as_ref()),
            None => match self.overloaded_fields.get(attr) {
                Some(v) => Ok(Some(v)),
                None => match self.default_fields.get(attr) {
                    Some(v) => Ok(v.as_ref()),
                    None => match &self.payload {
                        Some(payload) => payload._getfieldval(attr),
                        None => Err(PacketError::UnknownField),
                    },
                },
            },
        }
    }

    /// Sets the field `attr` to what the caller hands in, converted by the
    /// field of that name; or records that it holds no value, where the
    /// caller hands in none. Fails, and leaves the instance as it is, where
    /// the class declares no field of that name or the field refuses the
    /// value.
    pub fn setfieldval<E: FieldTrait>(
        &mut self,
        reg: &Registry<E>,
        attr: String,
        val: Option<&HostValue>,
    ) -> (r: Result<(), PacketError>)
        requires
            old(self)@.class < reg@.len(),
        ensures
            r is Err ==> final(self)@ == old(self)@,
            r is Ok ==> final(self)@ == (PacketModel {
                fields: old(self)@.fields.insert(attr@, final(self)@.fields[attr@]),
                ..old(self)@
            }),
            r is Ok && val is None ==> final(self)@.fields[attr@] is None,
            r is Ok && val is Some ==> final(self)@.fields[attr@] is Some,
            find_field(reg@[old(self)@.class as int].fields, attr@, 0) is None ==> r == Err::<
                (),
                PacketError,
            >(PacketError::UnknownField),
            val is None || named_builtin(reg@[old(self)@.class as int].fields, attr@)
                ==> match set_spec(
                reg@[old(self)@.class as int].fields,
                old(self)@,
                attr@,
                view_opt_host(val),
            ) {
                Ok(m) => r is Ok && final(self)@ == m,
                Err(e) => r == Err::<(), PacketError>(e),
            },
    {
        let field = self._get_field(reg, &attr)?;
        let val = if let Some(val) = val {
            Some(field.fieldtype.as_trait().any2i(Some(&*self), Some(val))?)
        } else {
            None
        };
        proof {
            lemma_view_slots_insert(self.fields@, attr@, val);
        }
        self.fields.insert(attr, val);
        Ok(())
    }

    /// Whether the condition of a rule holds of this instance.
    fn satisfies(&self, condition: &Option<NameMap<InternalType>>) -> (b: bool)
        ensures
            b == self@.satisfies(
                match *condition {
                    Some(m) => Some(view_values(m@)),
                    None => None,
                },
            ),
    {
        match condition {
            None => true,
            Some(fvals) => {
                let ghost want = view_values(fvals@);
                let mut i: usize = 0;
                while i < fvals.len()
                    invariant
                        i <= fvals.names().len(),
                        *condition == Some(*fvals),
                        want == view_values(fvals@),
                        forall|j: int|
                            0 <= j < i ==> self@.lookup(#[trigger] fvals.names()[j]) == Ok::<
                                Option<SemanticValue>,
                                PacketError,
                            >(Some(want[fvals.names()[j]])),
                    decreases fvals.names().len() - i,
                {
                    let k = fvals.name_at(i);
                    let found = self._getfieldval(k);
                    let held = match fvals.get(k) {
                        Some(v) => {
                            assert(want[k@] == v@);
                            match found {
                                Ok(Some(fval)) => v.eq(fval),
                                _ => false,
                            }
                        },
                        None => false,
                    };
                    if !held {
                        proof {
                            assert(want.contains_key(k@));
                            assert(self@.lookup(k@) != Ok::<Option<SemanticValue>, PacketError>(
                                Some(want[k@]),
                            ));
                            assert(!self@.holds_all(want));
                        }
                        return false;
                    }
                    i = i + 1;
                }
                proof {
                    fvals.lemma_names();
                    assert forall|k: Seq<char>| #[trigger] want.contains_key(k) implies self@.lookup(
                        k,
                    ) == Ok::<Option<SemanticValue>, PacketError>(Some(want[k])) by {
                        assert(fvals@.contains_key(k));
                        assert(fvals.names().contains(k));
                        let j = choose|j: int| 0 <= j < fvals.names().len() && fvals.names()[j] == k;
                        assert(self@.lookup(fvals.names()[j]) == Ok::<
                            Option<SemanticValue>,
                            PacketError,
                        >(Some(want[fvals.names()[j]])));
                    }
                }
                true
            },
        }
    }

    /// The class that the rules of this layer's class select for its
    /// payload: that of the first rule, in the order in which the rules
    /// were bound, whose condition holds of this instance; the catch-all
    /// class where none does.
    pub fn guess_payload_class<E: FieldTrait>(&self, reg: &Registry<E>, _s: &[u8]) -> (r: Result<
        PacketClassProxy,
        PacketError,
    >)
        requires
            reg.wf(),
            self@.class < reg@.len(),
        ensures
            r matches Ok(cls) && cls.id() == self@.guess(reg@[self@.class as int].rules)
                && cls.id() < reg@.len(),
    {
        let cls = self.proxy.get_class(reg);
        let ghost rules = reg@[self@.class as int].rules;
        let mut i: usize = 0;
        while i < cls.payload_guess.len()
            invariant
                reg.wf(),
                self@.class < reg@.len(),
                i <= cls.payload_guess@.len(),
                cls@ == reg@[self@.class as int],
                rules == cls@.rules,
                self@.first_match(rules, 0) == self@.first_match(rules, i as int),
            decreases cls.payload_guess@.len() - i,
        {
            if self.satisfies(&cls.payload_guess[i].0) {
                let upper = cls.payload_guess[i].1;
                proof {
                    assert(rules[i as int] == view_rule(cls.payload_guess@[i as int]));
                    assert(registry_wf(reg@));
                    assert(rules[i as int].upper < reg@.len());
                }
                return Ok(upper);
            }
            proof {
                assert(rules[i as int] == view_rule(cls.payload_guess@[i as int]));
            }
            i = i + 1;
        }
        Ok(reg.raw())
    }
}

/// A copy of a map of values.
fn clone_values(m: &NameMap<InternalType>) -> (r: NameMap<InternalType>)
    ensures
        view_values(r@) == view_values(m@),
{
    let mut r: NameMap<InternalType> = NameMap::new();
    let mut i: usize = 0;
    while i < m.len()
        invariant
            i <= m.names().len(),
            forall|k: Seq<char>| #[trigger]
                r@.contains_key(k) ==> m@.contains_key(k) && r@[k]@ == m@[k]@,
            forall|j: int| 0 <= j < i ==> r@.contains_key(#[trigger] m.names()[j]),
        decreases m.names().len() - i,
    {
        let k = m.name_at(i);
        match m.get(k) {
            Some(v) => {
                r.insert(k.clone(), v.clone());
            },
            None => {},
        }
        i = i + 1;
    }
    proof {
        m.lemma_names();
        assert forall|k: Seq<char>| m@.contains_key(k) implies r@.contains_key(k) by {
            assert(m.names().contains(k));
            let j = choose|j: int| 0 <= j < m.names().len() && m.names()[j] == k;
            assert(r@.contains_key(m.names()[j]));
        }
        assert(view_values(r@) =~= view_values(m@));
    }
    r
}

/// A copy of a map of values that may be absent.
fn clone_slots(m: &NameMap<Option<InternalType>>) -> (r: NameMap<Option<InternalType>>)
    ensures
        view_slots(r@) == view_slots(m@),
{
    let mut r: NameMap<Option<InternalType>> = NameMap::new();
    let mut i: usize = 0;
    while i < m.len()
        invariant
            i <= m.names().len(),
            forall|k: Seq<char>| #[trigger]
                r@.contains_key(k) ==> m@.contains_key(k) && view_opt(r@[k]) == view_opt(m@[k]),
            forall|j: int| 0 <= j < i ==> r@.contains_key(#[trigger] m.names()[j]),
        decreases m.names().len() - i,
    {
        let k = m.name_at(i);
        match m.get(k) {
            Some(v) => {
                r.insert(k.clone(), clone_slot(v));
            },
            None => {},
        }
        i = i + 1;
    }
    proof {
        m.lemma_names();
        assert forall|k: Seq<char>| m@.contains_key(k) implies r@.contains_key(k) by {
            assert(m.names().contains(k));
            let j = choose|j: int| 0 <= j < m.names().len() && m.names()[j] == k;
            assert(r@.contains_key(m.names()[j]));
        }
        assert(view_slots(r@) =~= view_slots(m@));
    }
    r
}

impl Clone for Packet {
    /// A deep copy: of the values of this layer and of the layers it
    /// carries.
    fn clone(&self) -> (r: Self)
        ensures
            r@ == self@,
        decreases self,
    {
        Packet {
            proxy: self.proxy,
            fields: clone_slots(&self.fields),
            default_fields: clone_slots(&self.default_fields),
            overloaded_fields: clone_values(&self.overloaded_fields),
            payload: match &self.payload {
                Some(p) => Some(Box::new((**p).clone())),
                None => None,
            },
        }
    }
}

impl Packet {
    /// Attaches `payload` at the end of the payload chain. Where the class
    /// of `payload` records values to force beneath the class of the layer
    /// it comes to hang under, `payload` takes them as its forced values.
    pub fn add_payload<E: FieldTrait>(&mut self, reg: &Registry<E>, payload: Packet)
        ensures
            final(self)@ == old(self)@.add_payload(reg@, payload@),
        decreases old(self)@.layers(),
    {
        match &mut self.payload {
            Some(pay) => {
                pay.add_payload(reg, payload);
            },
            None => {
                let ghost given = payload@;
                let mut payload = payload;
                if payload.proxy.id < reg.classes.len() {
                    match reg.classes[payload.proxy.id]._overload_fields.get(&self.proxy.id) {
                        Some(overloaded_fields) => {
                            payload.overloaded_fields = clone_values(overloaded_fields);
                        },
                        None => {},
                    }
                }
                assert(payload@ == given.beneath(reg@, old(self)@.class));
                self.payload = Some(Box::new(payload));
            },
        }
    }
}

/// Whether the layout `fields` has a field named `name` that makes a
/// semantic value of the caller's value `h`.
pub open spec fn converts(fields: Seq<FieldSpec>, name: Seq<char>, h: HostModel) -> bool {
    find_field(fields, name, 0) matches Some(i) && any2i_spec(fields[i].kind, Some(h)) is Ok
}

/// The semantic value that the field named `name` makes of `h`.
pub open spec fn converted(fields: Seq<FieldSpec>, name: Seq<char>, h: HostModel) -> SemanticValue {
    any2i_spec(fields[find_field(fields, name, 0)->0].kind, Some(h))->Ok_0
}

/// Whether every name of `kw` is a field of the layout that makes a
/// semantic value of what `kw` holds for it.
pub open spec fn all_convert(fields: Seq<FieldSpec>, kw: Map<Seq<char>, HostModel>) -> bool {
    forall|k: Seq<char>| #![trigger kw.contains_key(k)] kw.contains_key(k) ==> converts(fields, k, kw[k])
}

/// The values of a binding, checked against the layout `fields`: each
/// converted by the field of its name. An unknown name, or a value that
/// its field refuses, is an error.
pub open spec fn conditions_spec(fields: Seq<FieldSpec>, kw: Map<Seq<char>, HostModel>) -> Result<
    Map<Seq<char>, SemanticValue>,
    PacketError,
> {
    if all_convert(fields, kw) {
        Ok(Map::new(|k: Seq<char>| kw.contains_key(k), |k: Seq<char>| converted(fields, k, kw[k])))
    } else {
        Err(PacketError::UnknownField)
    }
}

/// Whether every name of `kw` that is a field of the layout is a built-in
/// field.
pub open spec fn all_named_builtin(fields: Seq<FieldSpec>, kw: Map<Seq<char>, HostModel>) -> bool {
    forall|k: Seq<char>| #![trigger kw.contains_key(k)] kw.contains_key(k) ==> named_builtin(fields, k)
}

/// Whether every name of `kw` is that of a field of the layout.
pub open spec fn all_declared(fields: Seq<FieldSpec>, kw: Map<Seq<char>, HostModel>) -> bool {
    forall|k: Seq<char>|
        #![trigger kw.contains_key(k)]
        kw.contains_key(k) ==> find_field(fields, k, 0) is Some
}

/// Whether the values of a binding name something that is no field of the
/// layout.
pub open spec fn names_undeclared(fields: Seq<FieldSpec>, kwargs: Option<Map<Seq<char>, HostModel>>)
    -> bool {
    match kwargs {
        Some(kw) => !all_declared(fields, kw),
        None => false,
    }
}

/// The class `c` with one more payload-guess rule, after those it had.
pub open spec fn with_rule(c: ClassSpec, rule: RuleSpec) -> ClassSpec {
    ClassSpec { rules: c.rules.push(rule), ..c }
}

/// The class `c` with the values `m` to force beneath the class `lower`,
/// in place of those it recorded for `lower` before.
pub open spec fn with_overload(c: ClassSpec, lower: nat, m: Map<Seq<char>, SemanticValue>)
    -> ClassSpec {
    ClassSpec { overloads: c.overloads.insert(lower, m), ..c }
}

/// The registry after a rule was bound to the class `lower`.
pub open spec fn bound_bottom_up(
    reg: Seq<ClassSpec>,
    lower: nat,
    upper: nat,
    condition: Option<Map<Seq<char>, SemanticValue>>,
) -> Seq<ClassSpec> {
    reg.update(lower as int, with_rule(reg[lower as int], RuleSpec { condition, upper }))
}

/// The registry after values to force beneath `lower` were bound to the
/// class `upper`.
pub open spec fn bound_top_down(
    reg: Seq<ClassSpec>,
    lower: nat,
    upper: nat,
    values: Map<Seq<char>, SemanticValue>,
) -> Seq<ClassSpec> {
    reg.update(upper as int, with_overload(reg[upper as int], lower, values))
}

pub open spec fn view_kwargs(kwargs: Option<&NameMap<HostValue>>) -> Option<
    Map<Seq<char>, HostModel>,
> {
    match kwargs {
        Some(m) => Some(view_hosts(m@)),
        None => None,
    }
}

/// The values of a binding, each converted by the field of its name in the
/// class `cls`.
fn convert_conditions<E: FieldTrait>(cls: &PacketClass<E>, kwargs: &NameMap<HostValue>) -> (r:
    Result<NameMap<InternalType>, PacketError>)
    ensures
        r matches Err(e) ==> e == PacketError::UnknownField,
        !all_declared(cls@.fields, view_hosts(kwargs@)) ==> r is Err,
        r matches Ok(got) ==> view_values(got@).dom() == view_hosts(kwargs@).dom(),
        all_named_builtin(cls@.fields, view_hosts(kwargs@)) ==> match conditions_spec(
            cls@.fields,
            view_hosts(kwargs@),
        ) {
            Ok(m) => r matches Ok(got) && view_values(got@) == m,
            Err(e) => r is Err,
        },
{
    let ghost fields = cls@.fields;
    let ghost kw = view_hosts(kwargs@);
    let mut out: NameMap<InternalType> = NameMap::new();
    let mut i: usize = 0;
    while i < kwargs.len()
        invariant
            i <= kwargs.names().len(),
            fields == cls@.fields,
            kw == view_hosts(kwargs@),
            forall|k: Seq<char>| #[trigger] out@.contains_key(k) ==> kw.contains_key(k),
            forall|j: int|
                0 <= j < i ==> out@.contains_key(#[trigger] kwargs.names()[j]) && find_field(
                    fields,
                    kwargs.names()[j],
                    0,
                ) is Some,
            all_named_builtin(fields, kw) ==> {
                &&& forall|k: Seq<char>| #[trigger]
                    out@.contains_key(k) ==> kw.contains_key(k) && out@[k]@ == converted(
                        fields,
                        k,
                        kw[k],
                    )
                &&& forall|j: int|
                    0 <= j < i ==> out@.contains_key(#[trigger] kwargs.names()[j]) && converts(
                        fields,
                        kwargs.names()[j],
                        kw[kwargs.names()[j]],
                    )
            },
        decreases kwargs.names().len() - i,
    {
        let k = kwargs.name_at(i);
        assert(kw.contains_key(k@));
        let v = match kwargs.get(k) {
            Some(v) => v,
            None => {
                return Err(PacketError::UnknownField);
            },
        };
        assert(kw[k@] == v@);
        let fproxy = match cls.get_field(k) {
            Ok(f) => f,
            Err(_) => {
                proof {
                    assert(!converts(fields, k@, kw[k@]));
                    assert(find_field(fields, k@, 0) is None);
                }
                return Err(PacketError::UnknownField);
            },
        };
        match fproxy.fieldtype.as_trait().any2i(None, Some(v)) {
            Ok(ival) => {
                out.insert(k.clone(), ival);
            },
            Err(_) => {
                proof {
                    if all_named_builtin(fields, kw) {
                        assert(named_builtin(fields, k@));
                        assert(!converts(fields, k@, kw[k@]));
                    }
                }
                return Err(PacketError::UnknownField);
            },
        }
        i = i + 1;
    }
    proof {
        kwargs.lemma_names();
        assert forall|k: Seq<char>| #![trigger kw.contains_key(k)] kw.contains_key(k) implies out@.contains_key(
            k,
        ) && find_field(fields, k, 0) is Some by {
            assert(kwargs@.contains_key(k));
            assert(kwargs.names().contains(k));
            let j = choose|j: int| 0 <= j < kwargs.names().len() && kwargs.names()[j] == k;
            assert(out@.contains_key(kwargs.names()[j]));
        }
        assert(view_values(out@).dom() =~= kw.dom());
        if all_named_builtin(fields, kw) {
            assert forall|k: Seq<char>| #![trigger kw.contains_key(k)] kw.contains_key(k) implies converts(
                fields,
                k,
                kw[k],
            ) && out@.contains_key(k) by {
                assert(kwargs@.contains_key(k));
                assert(kwargs.names().contains(k));
                let j = choose|j: int| 0 <= j < kwargs.names().len() && kwargs.names()[j] == k;
                assert(out@.contains_key(kwargs.names()[j]));
            }
            assert(view_values(out@) =~= conditions_spec(fields, kw)->Ok_0);
        }
    }
    Ok(out)
}

/// Binds `upper` above `lower`: an instance of `lower` whose fields have
/// the given values takes `upper` as the class of its payload. The rule
/// comes after those that `lower` already has. With no values, the rule
/// always applies. Each value is converted by the field of `lower` that it
/// names.
pub fn bind_bottom_up<E: FieldTrait>(
    reg: &mut Registry<E>,
    lower: &PacketClassProxy,
    upper: &PacketClassProxy,
    kwargs: Option<&NameMap<HostValue>>,
) -> (r: Result<(), PacketError>)
    requires
        old(reg).wf(),
        lower.id() < old(reg)@.len(),
        upper.id() < old(reg)@.len(),
    ensures
        final(reg).wf(),
        final(reg).layouts() == old(reg).layouts(),
        r matches Err(e) ==> e == PacketError::UnknownField && final(reg)@ == old(reg)@,
        names_undeclared(old(reg)@[lower.id() as int].fields, view_kwargs(kwargs)) ==> r is Err,
        r is Ok ==> exists|condition: Option<Map<Seq<char>, SemanticValue>>|
            final(reg)@ == #[trigger] bound_bottom_up(old(reg)@, lower.id(), upper.id(), condition),
        match view_kwargs(kwargs) {
            None => r is Ok && final(reg)@ == bound_bottom_up(
                old(reg)@,
                lower.id(),
                upper.id(),
                None,
            ),
            Some(kw) => all_named_builtin(old(reg)@[lower.id() as int].fields, kw)
                ==> match conditions_spec(old(reg)@[lower.id() as int].fields, kw) {
                Ok(m) => r is Ok && final(reg)@ == bound_bottom_up(
                    old(reg)@,
                    lower.id(),
                    upper.id(),
                    Some(m),
                ),
                Err(e) => r is Err,
            },
        },
{
    let mapped_fields = match kwargs {
        Some(kwargs) => Some(convert_conditions(&reg.classes[lower.id], kwargs)?),
        None => None,
    };
    let ghost rule = view_rule((mapped_fields, *upper));
    reg.classes[lower.id].payload_guess.push((mapped_fields, *upper));
    proof {
        assert(reg.layouts() =~= old(reg).layouts());
        let want = bound_bottom_up(old(reg)@, lower.id(), upper.id(), rule.condition);
        assert(reg.classes@[lower.id() as int]@.rules =~= old(reg)@[lower.id() as int].rules.push(
            rule,
        ));
        assert(reg.classes@[lower.id() as int]@.overloads =~= old(reg)@[lower.id() as int].overloads);
        assert(reg@ =~= want);
    }
    Ok(())
}

/// Binds values to force: an instance of `upper` that is attached beneath
/// an instance of `lower` takes the given values as its forced values.
/// They replace what was bound for the same pair before. With no values,
/// nothing is bound. Each value is converted by the field of `upper` that
/// it names.
pub fn bind_top_down<E: FieldTrait>(
    reg: &mut Registry<E>,
    lower: &PacketClassProxy,
    upper: &PacketClassProxy,
    kwargs: Option<&NameMap<HostValue>>,
) -> (r: Result<(), PacketError>)
    requires
        old(reg).wf(),
        lower.id() < old(reg)@.len(),
        upper.id() < old(reg)@.len(),
    ensures
        final(reg).wf(),
        final(reg).layouts() == old(reg).layouts(),
        r matches Err(e) ==> e == PacketError::UnknownField && final(reg)@ == old(reg)@,
        names_undeclared(old(reg)@[upper.id() as int].fields, view_kwargs(kwargs)) ==> r is Err,
        r is Ok && kwargs is Some ==> exists|values: Map<Seq<char>, SemanticValue>|
            final(reg)@ == #[trigger] bound_top_down(old(reg)@, lower.id(), upper.id(), values),
        match view_kwargs(kwargs) {
            None => r is Ok && final(reg)@ == old(reg)@,
            Some(kw) => all_named_builtin(old(reg)@[upper.id() as int].fields, kw)
                ==> match conditions_spec(old(reg)@[upper.id() as int].fields, kw) {
                Ok(m) => r is Ok && final(reg)@ == bound_top_down(
                    old(reg)@,
                    lower.id(),
                    upper.id(),
                    m,
                ),
                Err(e) => r is Err,
            },
        },
{
    if let Some(kwargs) = kwargs {
        let kwargs_converted = convert_conditions(&reg.classes[upper.id], kwargs)?;
        let ghost values = view_values(kwargs_converted@);
        reg.classes[upper.id]._overload_fields.insert(lower.id, kwargs_converted);
        proof {
            assert(reg.layouts() =~= old(reg).layouts());
            let want = bound_top_down(old(reg)@, lower.id(), upper.id(), values);
            assert(reg.classes@[upper.id() as int]@.rules =~= old(reg)@[upper.id() as int].rules);
            assert(reg.classes@[upper.id() as int]@.overloads =~= old(
                reg,
            )@[upper.id() as int].overloads.insert(lower.id(), values));
            assert(reg@ =~= want);
        }
    }
    Ok(())
}

/// What binding a pair of layers makes of a registry, and whether it
/// succeeds: the rule is bound to `lower` first; the values to force are
/// bound to `upper` after it, and only where the rule was.
pub open spec fn bind_layers_spec(
    reg: Seq<ClassSpec>,
    lower: nat,
    upper: nat,
    kwargs: Option<Map<Seq<char>, HostModel>>,
) -> (Seq<ClassSpec>, bool) {
    match kwargs {
        None => (bound_bottom_up(reg, lower, upper, None), true),
        Some(kw) => match conditions_spec(reg[lower as int].fields, kw) {
            Err(_) => (reg, false),
            Ok(condition) => {
                let ruled = bound_bottom_up(reg, lower, upper, Some(condition));
                match conditions_spec(ruled[upper as int].fields, kw) {
                    Err(_) => (ruled, false),
                    Ok(values) => (bound_top_down(ruled, lower, upper, values), true),
                }
            },
        },
    }
}

/// Binds `upper` above `lower` in both directions, with the same values:
/// they select `upper` as the payload of `lower`, and they are forced onto
/// an instance of `upper` attached beneath `lower`.
pub fn bind_layers<E: FieldTrait>(
    reg: &mut Registry<E>,
    lower: &PacketClassProxy,
    upper: &PacketClassProxy,
    kwargs: Option<&NameMap<HostValue>>,
) -> (r: Result<(), PacketError>)
    requires
        old(reg).wf(),
        lower.id() < old(reg)@.len(),
        upper.id() < old(reg)@.len(),
    ensures
        final(reg).wf(),
        final(reg)@.len() == old(reg)@.len(),
        final(reg).layouts() == old(reg).layouts(),
        r matches Err(e) ==> e == PacketError::UnknownField,
        names_undeclared(old(reg)@[lower.id() as int].fields, view_kwargs(kwargs)) ==> r is Err
            && final(reg)@ == old(reg)@,
        names_undeclared(old(reg)@[upper.id() as int].fields, view_kwargs(kwargs)) ==> r is Err,
        (view_kwargs(kwargs) matches Some(kw) ==> all_named_builtin(
            old(reg)@[lower.id() as int].fields,
            kw,
        ) && all_named_builtin(old(reg)@[upper.id() as int].fields, kw)) ==> (final(reg)@, r is Ok)
            == bind_layers_spec(old(reg)@, lower.id(), upper.id(), view_kwargs(kwargs)),
{
    bind_bottom_up(reg, lower, upper, kwargs)?;
    bind_top_down(reg, lower, upper, kwargs)?;
    Ok(())
}

impl Packet {
    /// Detaches the payload and gives it back, with its forced values
    /// cleared: they held only beneath this layer.
    pub fn take_payload(&mut self) -> (r: Option<Packet>)
        ensures
            final(self)@ == (PacketModel { payload: None, ..old(self)@ }),
            match old(self)@.payload {
                Some(p) => r matches Some(q) && q@ == (PacketModel {
                    overloaded: Map::empty(),
                    ..*p
                }),
                None => r is None,
            },
    {
        match self.payload.take() {
            Some(p) => {
                let mut p = *p;
                let ghost before = p@;
                assert(old(self)@.payload matches Some(q) && *q == before);
                p.overloaded_fields = NameMap::new();
                proof {
                    assert(p@.overloaded =~= Map::<Seq<char>, SemanticValue>::empty());
                    assert(p@ == (PacketModel { overloaded: Map::empty(), ..before }));
                }
                Some(p)
            },
            None => None,
        }
    }

    /// Detaches the payload and drops it, with all that it carries.
    pub fn remove_payload(&mut self)
        ensures
            final(self)@ == (PacketModel { payload: None, ..old(self)@ }),
    {
        self.payload = None;
    }

    /// A copy of the payload, if there is one.
    pub fn get_payload(&self) -> (r: Option<Packet>)
        ensures
            match r {
                Some(p) => self@.payload matches Some(q) && *q == p@,
                None => self@.payload is None,
            },
    {
        if let Some(x) = &self.payload {
            Some((**x).clone())
        } else {
            None
        }
    }

    /// Puts `payload` in place of the payload chain, or detaches the chain
    /// where `payload` is none.
    pub fn set_payload<E: FieldTrait>(&mut self, reg: &Registry<E>, payload: Option<Packet>)
        ensures
            final(self)@ == (match payload {
                Some(x) => (PacketModel { payload: None, ..old(self)@ }).add_payload(reg@, x@),
                None => PacketModel { payload: None, ..old(self)@ },
            }),
    {
        if let Some(x) = payload {
            self.remove_payload();
            self.add_payload(reg, x);
        } else {
            self.payload = None;
        }
    }
}

/// The bytes that the first `n` fields of a layout write for the instance
/// `p`, each field writing the value that its name resolves to.
pub open spec fn self_build_spec(fields: Seq<FieldSpec>, p: PacketModel, n: nat) -> Result<
    Seq<u8>,
    PacketError,
>
    decreases n,
{
    if n == 0 {
        Ok(Seq::empty())
    } else {
        match self_build_spec(fields, p, (n - 1) as nat) {
            Err(e) => Err(e),
            Ok(s) => match p.lookup(fields[n - 1].name) {
                Err(e) => Err(e),
                Ok(v) => addfield_spec(fields[n - 1].kind, s, v),
            },
        }
    }
}

/// The bytes of an instance: those of its own fields, then those of its
/// payload.
pub open spec fn build_spec(reg: Seq<ClassSpec>, p: PacketModel) -> Result<Seq<u8>, PacketError>
    decreases p,
{
    let fields = reg[p.class as int].fields;
    match self_build_spec(fields, p, fields.len()) {
        Err(e) => Err(e),
        Ok(own) => match p.payload {
            None => Ok(own),
            Some(q) => match build_spec(reg, *q) {
                Ok(pay) => Ok(own + pay),
                Err(e) => Err(e),
            },
        },
    }
}

/// Every layer of the instance is of a class that the registry holds.
pub open spec fn known(reg: Seq<ClassSpec>, p: PacketModel) -> bool
    decreases p,
{
    &&& p.class < reg.len()
    &&& match p.payload {
        Some(q) => known(reg, *q),
        None => true,
    }
}

/// What the fields of a layout, from position `from` on, take from the
/// bytes `s`: the bytes that are left, and the explicitly set values `set`
/// with what each field read put under its name.
pub open spec fn dissect_fields(
    fields: Seq<FieldSpec>,
    from: int,
    s: Seq<u8>,
    set: Map<Seq<char>, Option<SemanticValue>>,
) -> Result<(Seq<u8>, Map<Seq<char>, Option<SemanticValue>>), PacketError>
    decreases fields.len() - from,
{
    if from < 0 || from >= fields.len() {
        Ok((s, set))
    } else {
        match getfield_spec(fields[from].kind, s) {
            Err(e) => Err(e),
            Ok((rest, v)) => dissect_fields(
                fields,
                from + 1,
                rest,
                set.insert(fields[from].name, Some(v)),
            ),
        }
    }
}

/// The explicitly set values after the fields of a layout, from position
/// `from` on, have read from the bytes `s` as far as they could: each field
/// that read a value put it under its name in `set`, up to the first field
/// that failed.
pub open spec fn dissect_reach(
    fields: Seq<FieldSpec>,
    from: int,
    s: Seq<u8>,
    set: Map<Seq<char>, Option<SemanticValue>>,
) -> Map<Seq<char>, Option<SemanticValue>>
    decreases fields.len() - from,
{
    if from < 0 || from >= fields.len() {
        set
    } else {
        match getfield_spec(fields[from].kind, s) {
            Err(_) => set,
            Ok((rest, v)) => dissect_reach(
                fields,
                from + 1,
                rest,
                set.insert(fields[from].name, Some(v)),
            ),
        }
    }
}

/// An instance of the catch-all class that holds the bytes `s`.
pub open spec fn raw_packet(s: Seq<u8>) -> PacketModel {
    PacketModel {
        class: RAW as nat,
        fields: Map::empty().insert("load"@, Some(SemanticValue::Bytes(s))),
        defaults: Map::empty().insert("load"@, Some(SemanticValue::Bytes(Seq::empty()))),
        overloaded: Map::empty(),
        payload: None,
    }
}

/// The instance `p` after its class's fields have read the bytes `s`, and
/// what they left has been read as its payload, down to `depth` layers
/// below `p`. The payload is of the class that the rules of `p`'s class
/// select; where it cannot be read as that, it is an instance of the
/// catch-all class that holds the bytes as they are.
pub open spec fn dissect_spec(reg: Seq<ClassSpec>, p: PacketModel, s: Seq<u8>, depth: nat)
    -> Result<PacketModel, PacketError>
    decreases depth, 1int,
{
    match dissect_fields(reg[p.class as int].fields, 0, s, p.fields) {
        Err(e) => Err(e),
        Ok((rest, set)) => {
            let own = PacketModel { fields: set, ..p };
            if rest.len() == 0 {
                Ok(own)
            } else {
                let upper = own.guess(reg[p.class as int].rules);
                let child = match nested_spec(reg, upper, rest, depth) {
                    Ok(q) => q,
                    Err(_) => raw_packet(rest),
                };
                Ok(own.add_payload(reg, child))
            }
        },
    }
}

/// A new instance of `class` read from the bytes `s`, as a layer that may
/// have `depth` layers in all, itself among them. No layer may be read
/// where `depth` is 0.
pub open spec fn nested_spec(reg: Seq<ClassSpec>, class: nat, s: Seq<u8>, depth: nat) -> Result<
    PacketModel,
    PacketError,
>
    decreases depth, 0int,
{
    if depth == 0 {
        Err(PacketError::TruncatedInput)
    } else {
        dissect_spec(reg, fresh(reg, class), s, (depth - 1) as nat)
    }
}

/// What holds once the fields of `p`'s own class have read `s`, whatever
/// the classes of the layers below are made of. Where a field fails,
/// dissection fails with that field's error. Where all read, dissection
/// succeeds and `after` has the values they read; with no bytes left its
/// payload is that of `p`, and with bytes left its payload chain ends in
/// one more layer: of the class that the rules select, or one of the
/// catch-all class that holds those bytes.
pub open spec fn own_layer_read(
    reg: Seq<ClassSpec>,
    p: PacketModel,
    s: Seq<u8>,
    failed: Option<PacketError>,
    after: PacketModel,
) -> bool {
    match dissect_fields(reg[p.class as int].fields, 0, s, p.fields) {
        Ok((rest, set)) => {
            let own = PacketModel { fields: set, ..p };
            &&& failed is None
            &&& after.fields == set
            &&& rest.len() == 0 ==> after == own
            &&& rest.len() > 0 ==> exists|child: PacketModel|
                after == #[trigger] own.add_payload(reg, child) && (child == raw_packet(rest)
                    || child.class == own.guess(reg[p.class as int].rules))
        },
        Err(e) => failed == Some(e),
    }
}

/// What holds of a new instance of `class` read from `s`, whatever the
/// classes of the layers below are made of.
pub open spec fn instance_read(
    reg: Seq<ClassSpec>,
    class: nat,
    s: Seq<u8>,
    r: Result<PacketModel, PacketError>,
) -> bool {
    own_layer_read(
        reg,
        fresh(reg, class),
        s,
        failure(r),
        match r {
            Ok(q) => q,
            Err(_) => fresh(reg, class),
        },
    )
}

/// The error of a result, if it is one.
pub open spec fn failure<T>(r: Result<T, PacketError>) -> Option<PacketError> {
    match r {
        Ok(_) => None,
        Err(e) => Some(e),
    }
}

/// The instance `p` after the caller's values `kw` were set, name by name
/// in the order `names`, from position `from` on.
pub open spec fn assign_spec(
    fields: Seq<FieldSpec>,
    p: PacketModel,
    names: Seq<Seq<char>>,
    kw: Map<Seq<char>, HostModel>,
    from: int,
) -> Result<PacketModel, PacketError>
    decreases names.len() - from,
{
    if from < 0 || from >= names.len() {
        Ok(p)
    } else {
        match set_spec(fields, p, names[from], Some(kw[names[from]])) {
            Ok(q) => assign_spec(fields, q, names, kw, from + 1),
            Err(e) => Err(e),
        }
    }
}

/// A new instance of `class`, from bytes where there are any, else from
/// the caller's values.
pub open spec fn instantiate_spec(
    reg: Seq<ClassSpec>,
    class: nat,
    pkt: Option<Seq<u8>>,
    names: Seq<Seq<char>>,
    kw: Option<Map<Seq<char>, HostModel>>,
) -> Result<PacketModel, PacketError> {
    match pkt {
        Some(s) => dissect_spec(reg, fresh(reg, class), s, MAX_LAYERS as nat),
        None => match kw {
            Some(kw) => assign_spec(reg[class as int].fields, fresh(reg, class), names, kw, 0),
            None => Ok(fresh(reg, class)),
        },
    }
}

pub open spec fn view_packet(r: Result<Packet, PacketError>) -> Result<PacketModel, PacketError> {
    match r {
        Ok(p) => Ok(p@),
        Err(e) => Err(e),
    }
}

proof fn lemma_self_build_fails(fields: Seq<FieldSpec>, p: PacketModel, n: nat, m: nat)
    requires
        n <= m,
        self_build_spec(fields, p, n) is Err,
    ensures
        self_build_spec(fields, p, m) == self_build_spec(fields, p, n),
    decreases m,
{
    if n < m {
        lemma_self_build_fails(fields, p, n, (m - 1) as nat);
    }
}

impl Packet {
    /// An instance of the catch-all class that holds the bytes `s`.
    pub fn raw(s: &[u8]) -> (r: Packet)
        ensures
            r@ == raw_packet(s@),
    {
        let mut fields: NameMap<Option<InternalType>> = NameMap::new();
        let mut default_fields: NameMap<Option<InternalType>> = NameMap::new();
        let held = Some(InternalType::Bytes(vstd::slice::slice_to_vec(s)));
        let nothing = Some(InternalType::Bytes(Vec::new()));
        proof {
            lemma_view_slots_insert(fields@, "load"@, held);
            lemma_view_slots_insert(default_fields@, "load"@, nothing);
            assert(view_slots(fields@) =~= Map::<Seq<char>, Option<SemanticValue>>::empty());
            assert(view_slots(default_fields@) =~= Map::<
                Seq<char>,
                Option<SemanticValue>,
            >::empty());
        }
        fields.insert(String::from_str("load"), held);
        default_fields.insert(String::from_str("load"), nothing);
        let r = Packet {
            proxy: PacketClassProxy { id: RAW },
            fields,
            default_fields,
            overloaded_fields: NameMap::new(),
            payload: None,
        };
        proof {
            assert(r@.overloaded =~= Map::<Seq<char>, SemanticValue>::empty());
        }
        r
    }

    /// An instance of the class `proxy` with nothing set and no payload.
    pub fn fresh<E: FieldTrait>(proxy: &PacketClassProxy, reg: &Registry<E>) -> (r: Packet)
        requires
            proxy.id() < reg@.len(),
        ensures
            r@ == fresh(reg@, proxy.id()),
    {
        let cls = proxy.get_class(reg);
        let ghost fields = reg@[proxy.id() as int].fields;
        let mut map: NameMap<Option<InternalType>> = NameMap::new();
        let mut i: usize = 0;
        proof {
            assert(view_slots(map@) =~= class_defaults(fields, 0));
        }
        while i < cls.fields_desc.len()
            invariant
                i <= cls.fields_desc@.len(),
                fields == cls@.fields,
                view_slots(map@) == class_defaults(fields, i as nat),
            decreases cls.fields_desc@.len() - i,
        {
            let f = &cls.fields_desc[i];
            let default = clone_slot(&f.default);
            proof {
                lemma_view_slots_insert(map@, f.name@, default);
                assert(fields[i as int] == f@);
            }
            map.insert(f.name.clone(), default);
            i = i + 1;
        }
        let r = Packet {
            proxy: *proxy,
            fields: NameMap::new(),
            default_fields: map,
            overloaded_fields: NameMap::new(),
            payload: None,
        };
        proof {
            assert(r@.fields =~= Map::<Seq<char>, Option<SemanticValue>>::empty());
            assert(r@.overloaded =~= Map::<Seq<char>, SemanticValue>::empty());
        }
        r
    }

    /// Whether every layer is of a class that the registry holds.
    pub fn known_to<E: FieldTrait>(&self, reg: &Registry<E>) -> (b: bool)
        ensures
            b == known(reg@, self@),
        decreases self,
    {
        if !reg.contains(&self.proxy) {
            return false;
        }
        match &self.payload {
            Some(p) => p.known_to(reg),
            None => true,
        }
    }

    /// The bytes of this layer's own fields, in the order of the layout.
    /// Each field writes the value that its name resolves to.
    pub fn self_build<E: FieldTrait>(&self, reg: &Registry<E>) -> (r: Result<Vec<u8>, PacketError>)
        requires
            self@.class < reg@.len(),
        ensures
            builtin_layout(reg@[self@.class as int].fields) ==> crate::fields::view_bytes(r) == self_build_spec(
                reg@[self@.class as int].fields,
                self@,
                reg@[self@.class as int].fields.len(),
            ),
    {
        let cls = self.proxy.get_class(reg);
        let ghost fields = reg@[self@.class as int].fields;
        let mut s: Vec<u8> = Vec::new();
        let mut i: usize = 0;
        while i < cls.fields_desc.len()
            invariant
                i <= cls.fields_desc@.len(),
                self@.class < reg@.len(),
                fields == cls@.fields,
                fields == reg@[self@.class as int].fields,
                builtin_layout(reg@[self@.class as int].fields) ==> self_build_spec(fields, self@, i as nat) == Ok::<
                    Seq<u8>,
                    PacketError,
                >(s@),
            decreases cls.fields_desc@.len() - i,
        {
            let f = &cls.fields_desc[i];
            proof {
                assert(fields[i as int] == f@);
                if builtin_layout(fields) {
                    assert(fields[i as int].kind != FieldKind::Extension);
                }
            }
            let v = match self._getfieldval(&f.name) {
                Ok(v) => v,
                Err(e) => {
                    proof {
                        if builtin_layout(reg@[self@.class as int].fields) {
                            lemma_self_build_fails(fields, self@, (i + 1) as nat, fields.len());
                        }
                    }
                    return Err(e);
                },
            };
            s = match f.fieldtype.as_trait().addfield(self, s, v) {
                Ok(s) => s,
                Err(e) => {
                    proof {
                        if builtin_layout(reg@[self@.class as int].fields) {
                            lemma_self_build_fails(fields, self@, (i + 1) as nat, fields.len());
                        }
                    }
                    return Err(e);
                },
            };
            i = i + 1;
        }
        Ok(s)
    }

    /// The bytes of the payload, if there is one.
    pub fn do_build_payload<E: FieldTrait>(&self, reg: &Registry<E>) -> (r: Result<
        Option<Vec<u8>>,
        PacketError,
    >)
        requires
            known(reg@, self@),
        ensures
            builtin_chain(reg@, self@) ==> match self@.payload {
                Some(q) => match build_spec(reg@, *q) {
                    Ok(pay) => r matches Ok(Some(got)) && got@ == pay,
                    Err(e) => r == Err::<Option<Vec<u8>>, PacketError>(e),
                },
                None => r matches Ok(None),
            },
        decreases self@.layers(), 0int,
    {
        if let Some(payload) = &self.payload {
            Ok(Some(payload.do_build(reg)?))
        } else {
            Ok(None)
        }
    }

    /// The bytes to put after the payload. This layer puts none.
    pub fn build_padding(&self) -> (r: Result<Option<Vec<u8>>, PacketError>)
        ensures
            r matches Ok(None),
    {
        Ok(None)
    }

    /// The bytes of this layer and of all that it carries.
    pub fn do_build<E: FieldTrait>(&self, reg: &Registry<E>) -> (r: Result<Vec<u8>, PacketError>)
        requires
            known(reg@, self@),
        ensures
            builtin_chain(reg@, self@) ==> crate::fields::view_bytes(r) == build_spec(reg@, self@),
        decreases self@.layers(), 1int,
    {
        let own = self.self_build(reg)?;
        let pay = self.do_build_payload(reg)?;
        self.post_build(own, pay)
    }

    /// Called when this layer and its payload have been built: gives the
    /// bytes of the two together. This layer puts the payload after its
    /// own bytes and changes neither.
    pub fn post_build(&self, pkt: Vec<u8>, pay: Option<Vec<u8>>) -> (r: Result<
        Vec<u8>,
        PacketError,
    >)
        ensures
            r matches Ok(both) && both@ == (match pay {
                Some(pay) => pkt@ + pay@,
                None => pkt@,
            }),
    {
        let mut pkt = pkt;
        if let Some(pay) = pay {
            crate::wire::extend_bytes(&mut pkt, pay.as_slice());
        }
        Ok(pkt)
    }

    /// The bytes of the packet: those of this layer's fields, then those of
    /// its payload, then the padding.
    pub fn build<E: FieldTrait>(&self, reg: &Registry<E>) -> (r: Result<Vec<u8>, PacketError>)
        requires
            known(reg@, self@),
        ensures
            builtin_chain(reg@, self@) ==> crate::fields::view_bytes(r) == build_spec(reg@, self@),
    {
        let mut p = self.do_build(reg)?;
        if let Some(padding) = self.build_padding()? {
            crate::wire::extend_bytes(&mut p, padding.as_slice());
        }
        Ok(p)
    }
}

impl Packet {
    /// Lets the fields of this layer's class read from the front of `s`, in
    /// the order of the layout, and sets each to the value it read. Gives
    /// back the bytes that are left.
    fn do_dissect<'a, E: FieldTrait>(&mut self, reg: &Registry<E>, s: &'a [u8]) -> (r: Result<
        Cow<'a, [u8]>,
        PacketError,
    >)
        requires
            old(self)@.class < reg@.len(),
        ensures
            final(self)@ == (PacketModel { fields: final(self)@.fields, ..old(self)@ }),
            builtin_layout(reg@[old(self)@.class as int].fields) ==> match dissect_fields(
                reg@[old(self)@.class as int].fields,
                0,
                s@,
                old(self)@.fields,
            ) {
                Ok((rest, set)) => r matches Ok(got) && got@ == rest && final(self)@.fields == set,
                Err(e) => r matches Err(got) && got == e,
            },
            builtin_layout(reg@[old(self)@.class as int].fields) ==> final(self)@.fields
                == dissect_reach(reg@[old(self)@.class as int].fields, 0, s@, old(self)@.fields),
    {
        let cls = self.proxy.get_class(reg);
        let ghost fields = reg@[self@.class as int].fields;
        let mut rest: Cow<'a, [u8]> = Cow::Borrowed(s);
        let mut i: usize = 0;
        while i < cls.fields_desc.len()
            invariant
                i <= cls.fields_desc@.len(),
                fields == cls@.fields,
                fields == reg@[old(self)@.class as int].fields,
                old(self)@.class < reg@.len(),
                self@ == (PacketModel { fields: self@.fields, ..old(self)@ }),
                builtin_layout(fields) ==> dissect_fields(fields, 0, s@, old(self)@.fields)
                    == dissect_fields(fields, i as int, rest@, self@.fields),
                builtin_layout(fields) ==> dissect_reach(fields, 0, s@, old(self)@.fields)
                    == dissect_reach(fields, i as int, rest@, self@.fields),
            decreases cls.fields_desc@.len() - i,
        {
            let f = &cls.fields_desc[i];
            proof {
                assert(fields[i as int] == f@);
                if builtin_layout(fields) {
                    assert(fields[i as int].kind != FieldKind::Extension);
                }
            }
            let (remaining, fval) = match f.fieldtype.as_trait().getfield(&*self, rest) {
                Ok(taken) => taken,
                Err(e) => {
                    return Err(e);
                },
            };
            let fval = Some(fval);
            proof {
                lemma_view_slots_insert(self.fields@, f.name@, fval);
            }
            self.fields.insert(f.name.clone(), fval);
            rest = remaining;
            i = i + 1;
        }
        Ok(rest)
    }

    /// Reads the bytes `s` that this layer's fields left as its payload,
    /// and attaches it. With no bytes left, there is no payload.
    fn do_dissect_payload<E: FieldTrait>(&mut self, reg: &Registry<E>, s: &[u8], depth: usize) -> (r:
        Result<(), PacketError>)
        requires
            reg.wf(),
            old(self)@.class < reg@.len(),
        ensures
            r is Ok,
            final(self)@ == (PacketModel { payload: final(self)@.payload, ..old(self)@ }),
            s@.len() == 0 ==> final(self)@ == old(self)@,
            s@.len() > 0 ==> exists|child: PacketModel|
                final(self)@ == #[trigger] old(self)@.add_payload(reg@, child) && (child
                    == raw_packet(s@) || child.class == old(self)@.guess(
                    reg@[old(self)@.class as int].rules,
                )),
            all_builtin(reg@) && s@.len() > 0 ==> final(self)@ == old(self)@.add_payload(
                reg@,
                match nested_spec(
                    reg@,
                    old(self)@.guess(reg@[old(self)@.class as int].rules),
                    s@,
                    depth as nat,
                ) {
                    Ok(q) => q,
                    Err(_) => raw_packet(s@),
                },
            ),
        decreases depth, 1int,
    {
        if s.is_empty() {
            Ok(())
        } else {
            let cls = match self.guess_payload_class(reg, s) {
                Ok(cls) => cls,
                Err(_) => reg.raw(),
            };
            let pkt = match cls.nested(reg, s, depth) {
                Ok(pkt) => pkt,
                Err(_) => Packet::raw(s),
            };
            let ghost child = pkt@;
            self.add_payload(reg, pkt);
            assert(self@ == old(self)@.add_payload(reg@, child));
            Ok(())
        }
    }

    /// Reads this layer from `s`, and its payload from what is left, down
    /// to `depth` layers below this one.
    fn dissect_layers<E: FieldTrait>(&mut self, reg: &Registry<E>, s: &[u8], depth: usize) -> (r:
        Result<(), PacketError>)
        requires
            reg.wf(),
            old(self)@.class < reg@.len(),
        ensures
            final(self)@ == (PacketModel {
                fields: final(self)@.fields,
                payload: final(self)@.payload,
                ..old(self)@
            }),
            r is Err ==> final(self)@.payload == old(self)@.payload,
            r is Err && builtin_layout(reg@[old(self)@.class as int].fields) ==> final(self)@.fields
                == dissect_reach(reg@[old(self)@.class as int].fields, 0, s@, old(self)@.fields),
            builtin_layout(reg@[old(self)@.class as int].fields) ==> own_layer_read(
                reg@,
                old(self)@,
                s@,
                failure(r),
                final(self)@,
            ),
            all_builtin(reg@) ==> match dissect_spec(reg@, old(self)@, s@, depth as nat) {
                Ok(m) => r is Ok && final(self)@ == m,
                Err(e) => r matches Err(got) && got == e,
            },
        decreases depth, 2int,
    {
        let rest = self.do_dissect(reg, s)?;
        self.do_dissect_payload(reg, cow_bytes(&rest), depth)
    }

    /// Dissects `s` into this instance: the fields of its class read from
    /// the front of `s`, in the order of the layout, and what they leave is
    /// read as the payload, of the class that the rules select. A payload
    /// that cannot be read as that class is kept as the raw bytes it is.
    /// Fails only where this layer's own fields cannot be read.
    pub fn dissect<E: FieldTrait>(&mut self, reg: &Registry<E>, s: &[u8]) -> (r: Result<
        (),
        PacketError,
    >)
        requires
            reg.wf(),
            old(self)@.class < reg@.len(),
        ensures
            final(self)@ == (PacketModel {
                fields: final(self)@.fields,
                payload: final(self)@.payload,
                ..old(self)@
            }),
            r is Err ==> final(self)@.payload == old(self)@.payload,
            r is Err && builtin_layout(reg@[old(self)@.class as int].fields) ==> final(self)@.fields
                == dissect_reach(reg@[old(self)@.class as int].fields, 0, s@, old(self)@.fields),
            builtin_layout(reg@[old(self)@.class as int].fields) ==> own_layer_read(
                reg@,
                old(self)@,
                s@,
                failure(r),
                final(self)@,
            ),
            all_builtin(reg@) ==> match dissect_spec(reg@, old(self)@, s@, MAX_LAYERS as nat) {
                Ok(m) => r is Ok && final(self)@ == m,
                Err(e) => r matches Err(got) && got == e,
            },
    {
        self.dissect_layers(reg, s, MAX_LAYERS)
    }
}

impl PacketClassProxy {
    /// A new instance of this class read from `s`, as a layer that may have
    /// `depth` layers in all.
    fn nested<E: FieldTrait>(&self, reg: &Registry<E>, s: &[u8], depth: usize) -> (r: Result<
        Packet,
        PacketError,
    >)
        requires
            reg.wf(),
            self.id() < reg@.len(),
        ensures
            depth == 0 ==> failure(r) == Some(PacketError::TruncatedInput),
            r matches Ok(p) ==> p@.class == self.id(),
            depth > 0 && builtin_layout(reg@[self.id() as int].fields) ==> instance_read(
                reg@,
                self.id(),
                s@,
                view_packet(r),
            ),
            all_builtin(reg@) ==> view_packet(r) == nested_spec(reg@, self.id(), s@, depth as nat),
        decreases depth, 0int,
    {
        if depth == 0 {
            return Err(PacketError::TruncatedInput);
        }
        let mut p = Packet::fresh(self, reg);
        p.dissect_layers(reg, s, depth - 1)?;
        Ok(p)
    }

    /// A new instance of this class. With bytes, the instance is dissected
    /// from them. Without, each of the caller's values is set under its
    /// name, in the order in which the names came in; a field that is
    /// given no value stays unset and reads as its default.
    pub fn instantiate<E: FieldTrait>(
        &self,
        reg: &Registry<E>,
        pkt: Option<&[u8]>,
        kwargs: Option<&NameMap<HostValue>>,
    ) -> (r: Result<Packet, PacketError>)
        requires
            reg.wf(),
            self.id() < reg@.len(),
        ensures
            r matches Ok(p) ==> p@ == (PacketModel {
                fields: p@.fields,
                payload: p@.payload,
                ..fresh(reg@, self.id())
            }),
            pkt is None ==> (r matches Ok(p) ==> p@.payload is None),
            pkt is None && names_undeclared(reg@[self.id() as int].fields, view_kwargs(kwargs))
                ==> r is Err,
            builtin_layout(reg@[self.id() as int].fields) ==> match pkt {
                Some(s) => instance_read(reg@, self.id(), s@, view_packet(r)),
                None => true,
            },
            (match pkt {
                Some(_) => all_builtin(reg@),
                None => match view_kwargs(kwargs) {
                    Some(kw) => all_named_builtin(reg@[self.id() as int].fields, kw),
                    None => true,
                },
            }) ==> view_packet(r) == instantiate_spec(
                reg@,
                self.id(),
                match pkt {
                    Some(s) => Some(s@),
                    None => None,
                },
                match kwargs {
                    Some(kw) => kw.names(),
                    None => Seq::empty(),
                },
                view_kwargs(kwargs),
            ),
    {
        let mut p = Packet::fresh(self, reg);
        if let Some(s) = pkt {
            p.dissect(reg, s)?;
        } else {
            if let Some(given) = kwargs {
                let ghost fields = reg@[self.id() as int].fields;
                let ghost kw = view_hosts(given@);
                let mut i: usize = 0;
                while i < given.len()
                    invariant
                        pkt is None,
                        kwargs == Some(given),
                        i <= given.names().len(),
                        self.id() < reg@.len(),
                        p@ == (PacketModel { fields: p@.fields, ..fresh(reg@, self.id()) }),
                        fields == reg@[self.id() as int].fields,
                        kw == view_hosts(given@),
                        forall|j: int|
                            0 <= j < i ==> find_field(fields, #[trigger] given.names()[j], 0)
                                is Some,
                        all_named_builtin(fields, kw) ==> assign_spec(
                            fields,
                            fresh(reg@, self.id()),
                            given.names(),
                            kw,
                            0,
                        ) == assign_spec(fields, p@, given.names(), kw, i as int),
                    decreases given.names().len() - i,
                {
                    let attr = given.name_at(i);
                    let val = match given.get(attr) {
                        Some(val) => val,
                        None => {
                            return Err(PacketError::UnknownField);
                        },
                    };
                    proof {
                        assert(kw.contains_key(attr@));
                        assert(kw[attr@] == val@);
                    }
                    match p.setfieldval(reg, attr.clone(), Some(val)) {
                        Ok(()) => {},
                        Err(e) => {
                            return Err(e);
                        },
                    }
                    i = i + 1;
                }
                proof {
                    given.lemma_names();
                    assert forall|k: Seq<char>| #![trigger kw.contains_key(k)] kw.contains_key(
                        k,
                    ) implies find_field(fields, k, 0) is Some by {
                        assert(given@.contains_key(k));
                        assert(given.names().contains(k));
                        let j = choose|j: int| 0 <= j < given.names().len() && given.names()[j] == k;
                        assert(find_field(fields, given.names()[j], 0) is Some);
                    }
                }
            }
        }
        Ok(p)
    }
}

/// In a layout of built-in fields only, whatever field a name refers to is
/// built in.
proof fn lemma_named_builtin(fields: Seq<FieldSpec>, name: Seq<char>)
    requires
        builtin_layout(fields),
    ensures
        named_builtin(fields, name),
{
    lemma_find_field(fields, name, 0);
}

/// Where a field is found, it is at a position of the layout, it has the
/// name, and no field before it has, from `from` on.
pub proof fn lemma_find_field(fields: Seq<FieldSpec>, name: Seq<char>, from: int)
    requires
        0 <= from,
    ensures
        match find_field(fields, name, from) {
            Some(i) => from <= i < fields.len() && fields[i].name == name && forall|j: int|
                from <= j < i ==> (#[trigger] fields[j]).name != name,
            None => forall|j: int| from <= j < fields.len() ==> (#[trigger] fields[j]).name != name,
        },
    decreases fields.len() - from,
{
    if from < fields.len() && fields[from].name != name {
        lemma_find_field(fields, name, from + 1);
    }
}

/// The earliest rule decides: the payload class is that of the first rule,
/// in the order in which the rules were bound, whose condition holds; a
/// later rule never takes its place. Where no rule's condition holds, it is
/// the catch-all class.
pub proof fn lemma_first_match(p: PacketModel, rules: Seq<RuleSpec>, i: int)
    requires
        0 <= i <= rules.len(),
        forall|j: int| 0 <= j < i ==> !p.satisfies(#[trigger] rules[j].condition),
        i < rules.len() ==> p.satisfies(rules[i].condition),
    ensures
        i < rules.len() ==> p.guess(rules) == rules[i].upper,
        i == rules.len() ==> p.guess(rules) == RAW,
{
    lemma_first_match_from(p, rules, i, 0);
}

proof fn lemma_first_match_from(p: PacketModel, rules: Seq<RuleSpec>, i: int, from: int)
    requires
        0 <= from <= i <= rules.len(),
        forall|j: int| 0 <= j < i ==> !p.satisfies(#[trigger] rules[j].condition),
        i < rules.len() ==> p.satisfies(rules[i].condition),
    ensures
        p.first_match(rules, from) == (if i < rules.len() {
            Some(i)
        } else {
            None
        }),
    decreases i - from,
{
    if from < i {
        assert(!p.satisfies(rules[from].condition));
        lemma_first_match_from(p, rules, i, from + 1);
    }
}

/// The order of lookup: a field that has a forced value and no explicitly
/// set one resolves to the forced value, whatever the class default is; once a
/// value is set explicitly, the field resolves to that, though the forced
/// value is still there. A field with neither resolves to the class
/// default, and one that the layer does not know to what the payload chain
/// makes of it.
pub proof fn lemma_lookup_tiers(p: PacketModel, name: Seq<char>, set: Option<SemanticValue>)
    ensures
        p.fields.contains_key(name) ==> p.lookup(name) == Ok::<Option<SemanticValue>, PacketError>(
            p.fields[name],
        ),
        !p.fields.contains_key(name) && p.overloaded.contains_key(name) ==> p.lookup(name) == Ok::<
            Option<SemanticValue>,
            PacketError,
        >(Some(p.overloaded[name])),
        !p.fields.contains_key(name) && !p.overloaded.contains_key(name)
            && p.defaults.contains_key(name) ==> p.lookup(name) == Ok::<
            Option<SemanticValue>,
            PacketError,
        >(p.defaults[name]),
        !p.fields.contains_key(name) && !p.overloaded.contains_key(name)
            && !p.defaults.contains_key(name) ==> p.lookup(name) == (match p.payload {
            Some(q) => q.lookup(name),
            None => Err(PacketError::UnknownField),
        }),
        (PacketModel { fields: p.fields.insert(name, set), ..p }).lookup(name) == Ok::<
            Option<SemanticValue>,
            PacketError,
        >(set),
{
}

/// Attaching a payload forces values onto the payload and leaves the
/// values of the layers above as they are: an instance with no payload
/// gets the given one, with the forced values that the payload's class
/// records for the class above it.
pub proof fn lemma_attach(reg: Seq<ClassSpec>, p: PacketModel, payload: PacketModel)
    requires
        p.payload is None,
    ensures
        p.add_payload(reg, payload).payload == Some(Box::new(payload.beneath(reg, p.class))),
        p.add_payload(reg, payload).fields == p.fields,
        p.add_payload(reg, payload).overloaded == p.overloaded,
        forced(reg, payload.class, p.class) matches Some(m) ==> payload.beneath(
            reg,
            p.class,
        ).overloaded == m && payload.beneath(reg, p.class).fields == payload.fields,
{
}

/// Dissection fails only on the fields of the layer it was asked for:
/// whatever the bytes that these leave, they become a payload.
pub proof fn lemma_dissect_fails_on_own_fields(
    reg: Seq<ClassSpec>,
    p: PacketModel,
    s: Seq<u8>,
    depth: nat,
)
    ensures
        dissect_spec(reg, p, s, depth) is Err <==> dissect_fields(
            reg[p.class as int].fields,
            0,
            s,
            p.fields,
        ) is Err,
{
}

/// The catch-all class reads any bytes, and keeps them as they are.
pub proof fn lemma_raw_reads_all(reg: Seq<ClassSpec>, s: Seq<u8>, depth: nat)
    requires
        registry_wf(reg),
        depth > 0,
    ensures
        nested_spec(reg, RAW as nat, s, depth) == Ok::<PacketModel, PacketError>(raw_packet(s)),
{
    let fields = reg[RAW as int].fields;
    reveal_with_fuel(dissect_fields, 3);
    reveal_with_fuel(class_defaults, 3);
    assert(fields == raw_fields());
    assert(fields.len() == 1);
    let got = dissect_spec(reg, fresh(reg, RAW as nat), s, (depth - 1) as nat);
    assert(got is Ok);
    assert(got->Ok_0.fields =~= raw_packet(s).fields);
    assert(got->Ok_0.defaults =~= raw_packet(s).defaults);
}

/// Whether `v` is a value that a field of kind `kind` writes and reads
/// back: an integer of the field's kind, or a byte string for a string
/// field.
pub open spec fn fits(kind: FieldKind, v: Option<SemanticValue>) -> bool {
    match (kind, v) {
        (FieldKind::Scalar { kind: k, .. }, Some(SemanticValue::Scalar(k2, n))) => k == k2
            && k.contains(n),
        (FieldKind::Str, Some(SemanticValue::Bytes(_))) => true,
        _ => false,
    }
}

/// A layout whose bytes can be read back field by field: its fields are
/// built in, no two share a name, and only the last may be a string, which
/// takes all the bytes that remain.
pub open spec fn readable_layout(fields: Seq<FieldSpec>) -> bool {
    &&& builtin_layout(fields)
    &&& forall|i: int, j: int|
        0 <= i < j < fields.len() ==> (#[trigger] fields[i]).name != (#[trigger] fields[j]).name
    &&& forall|i: int| 0 <= i < fields.len() - 1 ==> (#[trigger] fields[i]).kind is Scalar
}

/// Every field of the layout is set explicitly in `p`, to a value of its
/// kind, and nothing else is.
pub open spec fn fully_set(fields: Seq<FieldSpec>, p: PacketModel) -> bool {
    &&& forall|i: int|
        0 <= i < fields.len() ==> p.fields.contains_key((#[trigger] fields[i]).name) && fits(
            fields[i].kind,
            p.fields[fields[i].name],
        )
    &&& forall|k: Seq<char>| #[trigger]
        p.fields.contains_key(k) ==> exists|i: int|
            0 <= i < fields.len() && (#[trigger] fields[i]).name == k
}

/// The bytes that the fields from position `from` on write for `p`.
spec fn tail_bytes(fields: Seq<FieldSpec>, p: PacketModel, from: int) -> Seq<u8>
    decreases fields.len() - from,
{
    if from < 0 || from >= fields.len() {
        Seq::empty()
    } else {
        addfield_spec(fields[from].kind, Seq::empty(), p.fields[fields[from].name])->Ok_0
            + tail_bytes(fields, p, from + 1)
    }
}

/// The values `set`, with the values of `p` for the fields from position
/// `from` on put under their names.
spec fn merged(
    fields: Seq<FieldSpec>,
    p: PacketModel,
    from: int,
    set: Map<Seq<char>, Option<SemanticValue>>,
) -> Map<Seq<char>, Option<SemanticValue>>
    decreases fields.len() - from,
{
    if from < 0 || from >= fields.len() {
        set
    } else {
        merged(fields, p, from + 1, set.insert(fields[from].name, p.fields[fields[from].name]))
    }
}

proof fn lemma_build_splits(fields: Seq<FieldSpec>, p: PacketModel, m: int)
    requires
        readable_layout(fields),
        fully_set(fields, p),
        0 <= m <= fields.len(),
    ensures
        self_build_spec(fields, p, m as nat) is Ok,
        self_build_spec(fields, p, fields.len()) is Ok,
        self_build_spec(fields, p, fields.len())->Ok_0 == self_build_spec(
            fields,
            p,
            m as nat,
        )->Ok_0 + tail_bytes(fields, p, m),
    decreases fields.len() - m,
{
    lemma_build_prefix(fields, p, m);
    if m < fields.len() {
        lemma_build_prefix(fields, p, m + 1);
        lemma_build_splits(fields, p, m + 1);
        let f = fields[m];
        assert(p.fields.contains_key(f.name));
        assert(fits(f.kind, p.fields[f.name]));
        assert(p.lookup(f.name) == Ok::<Option<SemanticValue>, PacketError>(p.fields[f.name]));
        let before = self_build_spec(fields, p, m as nat)->Ok_0;
        let own = addfield_spec(f.kind, Seq::empty(), p.fields[f.name])->Ok_0;
        assert(self_build_spec(fields, p, (m + 1) as nat)->Ok_0 =~= before + own);
        assert(before + own + tail_bytes(fields, p, m + 1) =~= before + (own + tail_bytes(
            fields,
            p,
            m + 1,
        )));
    } else {
        assert(self_build_spec(fields, p, m as nat)->Ok_0 + tail_bytes(fields, p, m)
            =~= self_build_spec(fields, p, m as nat)->Ok_0);
    }
}

proof fn lemma_build_prefix(fields: Seq<FieldSpec>, p: PacketModel, m: int)
    requires
        readable_layout(fields),
        fully_set(fields, p),
        0 <= m <= fields.len(),
    ensures
        self_build_spec(fields, p, m as nat) is Ok,
    decreases m,
{
    if m > 0 {
        lemma_build_prefix(fields, p, m - 1);
        let f = fields[m - 1];
        assert(p.fields.contains_key(f.name));
        assert(fits(f.kind, p.fields[f.name]));
        assert(p.lookup(f.name) == Ok::<Option<SemanticValue>, PacketError>(p.fields[f.name]));
    }
}

proof fn lemma_dissect_tail(
    fields: Seq<FieldSpec>,
    p: PacketModel,
    from: int,
    set: Map<Seq<char>, Option<SemanticValue>>,
    extra: Seq<u8>,
)
    requires
        readable_layout(fields),
        fully_set(fields, p),
        0 <= from <= fields.len(),
        extra.len() > 0 ==> scalar_layout(fields),
    ensures
        dissect_fields(fields, from, tail_bytes(fields, p, from) + extra, set) == Ok::<
            (Seq<u8>, Map<Seq<char>, Option<SemanticValue>>),
            PacketError,
        >((extra, merged(fields, p, from, set))),
    decreases fields.len() - from,
{
    if from < fields.len() {
        let f = fields[from];
        let v = p.fields[f.name];
        let after = tail_bytes(fields, p, from + 1);
        assert(p.fields.contains_key(f.name));
        assert(fits(f.kind, v));
        match f.kind {
            FieldKind::Scalar { kind, little } => {
                let n = v->Some_0->Scalar_1;
                let own = crate::wire::encode_int(kind, little, n);
                crate::fields::lemma_scalar_round_trip(kind, little, Seq::empty(), n, after + extra);
                assert(Seq::<u8>::empty() + own =~= own);
                assert(tail_bytes(fields, p, from) + extra =~= own + (after + extra));
                lemma_dissect_tail(fields, p, from + 1, set.insert(f.name, v), extra);
            },
            FieldKind::Str => {
                let b = v->Some_0->Bytes_0;
                assert(from == fields.len() - 1) by {
                    if from < fields.len() - 1 {
                        assert(fields[from].kind is Scalar);
                    }
                }
                assert(extra.len() == 0) by {
                    if extra.len() > 0 {
                        assert(fields[from].kind is Scalar);
                    }
                }
                assert(extra =~= Seq::<u8>::empty());
                assert(after =~= Seq::<u8>::empty());
                assert(tail_bytes(fields, p, from) + extra =~= b);
                crate::fields::lemma_str_round_trip(Seq::empty(), b);
                lemma_dissect_tail(fields, p, from + 1, set.insert(f.name, v), extra);
            },
            FieldKind::Extension => {},
        }
    } else {
        assert(tail_bytes(fields, p, from) + extra =~= extra);
    }
}

proof fn lemma_merged(
    fields: Seq<FieldSpec>,
    p: PacketModel,
    from: int,
    set: Map<Seq<char>, Option<SemanticValue>>,
    k: Seq<char>,
)
    requires
        0 <= from <= fields.len(),
    ensures
        (exists|j: int| from <= j < fields.len() && (#[trigger] fields[j]).name == k) ==> merged(
            fields,
            p,
            from,
            set,
        ).contains_key(k) && merged(fields, p, from, set)[k] == p.fields[k],
        !(exists|j: int| from <= j < fields.len() && (#[trigger] fields[j]).name == k) ==> (merged(
            fields,
            p,
            from,
            set,
        ).contains_key(k) <==> set.contains_key(k)) && merged(fields, p, from, set)[k] == set[k],
    decreases fields.len() - from,
{
    if from < fields.len() {
        let next = set.insert(fields[from].name, p.fields[fields[from].name]);
        lemma_merged(fields, p, from + 1, next, k);
        if exists|j: int| from <= j < fields.len() && (#[trigger] fields[j]).name == k {
            let j = choose|j: int| from <= j < fields.len() && (#[trigger] fields[j]).name == k;
            if j > from {
                assert(from + 1 <= j < fields.len() && fields[j].name == k);
            } else {
                assert(fields[from].name == k);
            }
        } else {
            assert(fields[from].name != k);
            assert forall|j: int| from + 1 <= j < fields.len() implies (#[trigger] fields[j]).name
                != k by {
                assert(from <= j < fields.len());
            }
        }
    }
}

proof fn lemma_merged_all(fields: Seq<FieldSpec>, p: PacketModel)
    requires
        fully_set(fields, p),
    ensures
        merged(fields, p, 0, Map::empty()) == p.fields,
{
    let got = merged(fields, p, 0, Map::empty());
    assert forall|k: Seq<char>| #[trigger]
        got.dom().contains(k) == p.fields.dom().contains(k) by {
        lemma_merged(fields, p, 0, Map::empty(), k);
        if p.fields.contains_key(k) {
            let i = choose|i: int| 0 <= i < fields.len() && (#[trigger] fields[i]).name == k;
            assert(0 <= i < fields.len() && fields[i].name == k);
        }
    }
    assert forall|k: Seq<char>| got.dom().contains(k) implies #[trigger] got[k] == p.fields[k] by {
        lemma_merged(fields, p, 0, Map::empty(), k);
    }
    assert(got =~= p.fields);
}

proof fn lemma_build_same(fields: Seq<FieldSpec>, a: PacketModel, b: PacketModel, n: int)
    requires
        fully_set(fields, a),
        a.fields == b.fields,
        0 <= n <= fields.len(),
    ensures
        self_build_spec(fields, a, n as nat) == self_build_spec(fields, b, n as nat),
    decreases n,
{
    if n > 0 {
        lemma_build_same(fields, a, b, n - 1);
        let f = fields[n - 1];
        assert(a.fields.contains_key(f.name));
        assert(a.lookup(f.name) == Ok::<Option<SemanticValue>, PacketError>(a.fields[f.name]));
        assert(b.lookup(f.name) == Ok::<Option<SemanticValue>, PacketError>(b.fields[f.name]));
    }
}

/// Every field of the layout is an integer.
pub open spec fn scalar_layout(fields: Seq<FieldSpec>) -> bool {
    forall|i: int| 0 <= i < fields.len() ==> (#[trigger] fields[i]).kind is Scalar
}

/// The instance `p` as it is while it is being dissected: without payload,
/// and with no values forced onto it yet.
pub open spec fn bare(p: PacketModel) -> PacketModel {
    PacketModel { payload: None, overloaded: Map::empty(), ..p }
}

/// The forced values that an instance of class `upper` has once it is
/// attached beneath an instance of class `lower`, where it had none.
pub open spec fn attached_forced(reg: Seq<ClassSpec>, upper: nat, lower: nat) -> Map<
    Seq<char>,
    SemanticValue,
> {
    match forced(reg, upper, lower) {
        Some(m) => m,
        None => Map::empty(),
    }
}

/// An instance that dissection can give back from its bytes. Each layer is
/// of a class whose layout can be read back, with its defaults, and has
/// each of its fields set to a value of the field's kind. A layer with a
/// payload is made of integers only, so that it leaves its payload's bytes
/// alone; its rules select the class of the payload; the payload has bytes
/// to be read from, and it carries the forced values that attaching it
/// gave it.
pub open spec fn rebuildable(reg: Seq<ClassSpec>, p: PacketModel) -> bool
    decreases p,
{
    &&& p.class < reg.len()
    &&& readable_layout(reg[p.class as int].fields)
    &&& fully_set(reg[p.class as int].fields, p)
    &&& p.defaults == class_defaults(
        reg[p.class as int].fields,
        reg[p.class as int].fields.len(),
    )
    &&& match p.payload {
        None => true,
        Some(q) => {
            &&& scalar_layout(reg[p.class as int].fields)
            &&& bare(p).guess(reg[p.class as int].rules) == q.class
            &&& q.overloaded == attached_forced(reg, q.class, p.class)
            &&& build_spec(reg, *q) matches Ok(b) && b.len() > 0
            &&& rebuildable(reg, *q)
        },
    }
}

/// Round trip of a packet: an instance that dissection can give back, with
/// no forced values on its first layer, builds to bytes that dissect to the
/// same instance, where dissection is let go as deep as the instance has
/// layers.
pub proof fn lemma_round_trip(reg: Seq<ClassSpec>, p: PacketModel, depth: nat)
    requires
        rebuildable(reg, p),
        p.overloaded == Map::<Seq<char>, SemanticValue>::empty(),
        depth + 1 >= p.layers(),
    ensures
        build_spec(reg, p) is Ok,
        dissect_spec(reg, fresh(reg, p.class), build_spec(reg, p)->Ok_0, depth) == Ok::<
            PacketModel,
            PacketError,
        >(p),
    decreases p.layers(),
{
    reveal_with_fuel(rebuildable, 2);
    let fields = reg[p.class as int].fields;
    let start = fresh(reg, p.class);
    lemma_build_splits(fields, p, 0);
    let own = self_build_spec(fields, p, fields.len())->Ok_0;
    assert(self_build_spec(fields, p, 0) == Ok::<Seq<u8>, PacketError>(Seq::empty()));
    assert(Seq::<u8>::empty() + tail_bytes(fields, p, 0) =~= tail_bytes(fields, p, 0));
    assert(own == tail_bytes(fields, p, 0));
    lemma_merged_all(fields, p);
    match p.payload {
        None => {
            lemma_dissect_tail(fields, p, 0, Map::empty(), Seq::empty());
            assert(own + Seq::<u8>::empty() =~= own);
            assert(PacketModel { fields: p.fields, ..start } == p);
        },
        Some(q) => {
            let pay = build_spec(reg, *q)->Ok_0;
            let unforced = PacketModel { overloaded: Map::empty(), ..*q };
            lemma_dissect_tail(fields, p, 0, Map::empty(), pay);
            let read = PacketModel { fields: p.fields, ..start };
            assert(read == bare(p));
            // the payload, read on its own
            assert(rebuildable(reg, unforced)) by {
                assert(bare(unforced) == bare(*q));
            }
            lemma_build_same(
                reg[q.class as int].fields,
                *q,
                unforced,
                reg[q.class as int].fields.len() as int,
            );
            assert(build_spec(reg, unforced) == build_spec(reg, *q));
            assert(unforced.layers() == q.layers());
            lemma_round_trip(reg, unforced, (depth - 1) as nat);
            assert(nested_spec(reg, q.class, pay, depth) == Ok::<PacketModel, PacketError>(
                unforced,
            ));
            // attaching it forces its values
            assert(unforced.beneath(reg, p.class) == *q);
            assert(read.add_payload(reg, unforced) == p);
        },
    }
}

} // verus!
