use vstd::prelude::*;
use crate::error::SerializeError;
use crate::record::document;
use crate::record::emits;
use crate::record::emitted;
use crate::record::field_slots;
use crate::record::first_fault;
use crate::record::store_slots;
use crate::record::lemma_document_first_fault;
use crate::record::lemma_document_ok_iff_no_fault;
use crate::record::lemma_emitted_concat;
use crate::record::lemma_first_fault_concat;
use crate::record::lemma_first_fault_prefix;
use crate::record::lemma_passed_over_slot_leaves_no_trace;
use crate::record::Field;
use crate::record::FieldKind;
use crate::record::Record;
use crate::record::Route;
use crate::record::Slot;
use crate::record::StoreEntry;
use crate::state::advanced;
use crate::state::nested_state;
use crate::state::HookRef;
use crate::state::RecordState;
use crate::text::decodable;
use crate::text::is_private;
use crate::value::members_view;
use crate::value::EmptyMapEmitter;
use crate::value::Member;
use crate::value::MemberView;
use crate::value::ValueSerializer;

verus! {

/// The mapping, or the fault, that an executable result stands for.
pub open spec fn result_view<'a, V>(r: Result<Vec<Member<'a, V>>, SerializeError>) -> Result<Seq<MemberView<V>>, SerializeError> {
    match r {
        Ok(members) => Ok(members_view(members@)),
        Err(e) => Err(e),
    }
}

proof fn lemma_take_step<V>(slots: Seq<Slot<V>>, i: int)
    requires
        0 <= i < slots.len(),
    ensures
        slots.take(i + 1).drop_last() == slots.take(i),
        slots.take(i + 1).last() == slots[i],
        slots.take(i + 1).len() == i + 1,
{
    assert(slots.take(i + 1).drop_last() =~= slots.take(i));
}

/// Whether every slot from `from` up to, not including, `to` is passed over.
pub open spec fn passed_over<V>(slots: Seq<Slot<V>>, from: int, to: int) -> bool {
    forall|j: int| from <= j < to && 0 <= j < slots.len() ==> (#[trigger] slots[j]).verdict == Ok::<Option<Seq<char>>, SerializeError>(None)
}

/// What a walk does next, for a caller that writes each member out before
/// it asks for the one after.
#[derive(Debug, PartialEq)]
pub enum Step<'a, V> {
    /// The next member, and the position to go on from.
    Emit { member: Member<'a, V>, next: usize },
    /// The walk ends with a fault.
    Fault { error: SerializeError },
    /// The walk is over: the mapping is complete.
    End,
}

/// What a step from `cursor` over the slots must be: `End` where all that
/// is left is passed over; else the first slot that is not decides, a fault
/// giving `Fault` and a key giving `Emit` with that slot's member and the
/// position behind it.
pub open spec fn step_matches<'a, V>(r: Step<'a, V>, slots: Seq<Slot<V>>, cursor: int, state: RecordState, default: Option<HookRef>) -> bool {
    match r {
        Step::End => passed_over(slots, cursor, slots.len() as int),
        Step::Fault { error } => exists|k: int|
            cursor <= k < slots.len() && passed_over(slots, cursor, k) && (#[trigger] slots[k]).verdict == Err::<Option<Seq<char>>, SerializeError>(error),
        Step::Emit { member, next } => {
            &&& cursor < next <= slots.len()
            &&& passed_over(slots, cursor, next - 1)
            &&& slots[next - 1].verdict == Ok::<Option<Seq<char>>, SerializeError>(Some(member@.key))
            &&& member@ == (MemberView { key: member@.key, value: slots[next - 1].value, state, default })
        },
    }
}

/// Serializes a record from its enumerable backing store.
pub struct DataclassFastSerializer<'a, V> {
    pub store: &'a Vec<StoreEntry<V>>,
    pub state: RecordState,
    pub default: Option<HookRef>,
}

impl<'a, V> DataclassFastSerializer<'a, V> {
    /// A serializer for the store, one level below `state`.
    pub fn new(store: &'a Vec<StoreEntry<V>>, state: RecordState, default: Option<HookRef>) -> (r: Self)
        requires
            state.depth < usize::MAX,
        ensures
            r.store == store,
            r.state == advanced(state, 1),
            r.default == default,
    {
        DataclassFastSerializer { store, state: state.advance(), default }
    }

    /// What serializing the store gives.
    pub open spec fn spec_serialize(&self) -> Result<Seq<MemberView<V>>, SerializeError> {
        document(store_slots(self.store@), self.state, self.default)
    }

    /// Walks the store in iteration order. A key that is not text-typed, or
    /// that does not decode, ends the walk with its fault; an entry with a
    /// private key is passed over; every other entry is emitted under its
    /// key, its value wrapped with this serializer's state and hook.
    pub fn serialize(&self) -> (r: Result<Vec<Member<'a, V>>, SerializeError>)
        ensures
            result_view(r) == self.spec_serialize(),
    {
        let store: &'a Vec<StoreEntry<V>> = self.store;
        let len = store.len();
        let ghost slots = store_slots(store@);
        if len == 0 {
            return Ok(EmptyMapEmitter::new().serialize());
        }
        let mut out: Vec<Member<'a, V>> = Vec::new();
        assert(members_view(out@) =~= emitted(slots.take(0), self.state, self.default));
        let mut i: usize = 0;
        while i < len
            invariant
                i <= len,
                len == store@.len(),
                store == self.store,
                slots == store_slots(store@),
                first_fault(slots.take(i as int)) is None,
                members_view(out@) == emitted(slots.take(i as int), self.state, self.default),
            decreases len - i,
        {
            let entry: &'a StoreEntry<V> = &store[i];
            proof {
                lemma_take_step(slots, i as int);
            }
            match entry.key.judge() {
                Err(e) => {
                    proof {
                        assert(slots[i as int].verdict == Err::<Option<Seq<char>>, SerializeError>(e));
                        assert(first_fault(slots.take(i as int + 1)) == Some(e));
                        lemma_first_fault_prefix(slots, i as int + 1);
                    }
                    return Err(e);
                },
                Ok(None) => {},
                Ok(Some(key)) => {
                    let ghost before = out@;
                    out.push(Member { key, value: ValueSerializer::new(&entry.value, self.state, self.default) });
                    assert(members_view(out@) =~= members_view(before).push(out@[before.len() as int]@));
                },
            }
            i += 1;
        }
        assert(slots.take(i as int) =~= slots);
        Ok(out)
    }

    /// The next thing the walk does from position `cursor` of the store.
    pub fn step(&self, cursor: usize) -> (r: Step<'a, V>)
        ensures
            step_matches(r, store_slots(self.store@), cursor as int, self.state, self.default),
    {
        let store: &'a Vec<StoreEntry<V>> = self.store;
        let len = store.len();
        let ghost slots = store_slots(store@);
        let mut i: usize = cursor;
        while i < len
            invariant
                cursor <= i,
                len == store@.len(),
                store == self.store,
                slots == store_slots(store@),
                passed_over(slots, cursor as int, i as int),
            decreases len - i,
        {
            let entry: &'a StoreEntry<V> = &store[i];
            match entry.key.judge() {
                Err(e) => {
                    assert(slots[i as int].verdict == Err::<Option<Seq<char>>, SerializeError>(e));
                    return Step::Fault { error: e };
                },
                Ok(None) => {},
                Ok(Some(key)) => {
                    let member = Member { key, value: ValueSerializer::new(&entry.value, self.state, self.default) };
                    return Step::Emit { member, next: i + 1 };
                },
            }
            i += 1;
        }
        Step::End
    }
}

/// Whether every field that the walk comes to and emits has an attribute on
/// the instance. The fields behind the first fault are never looked up.
pub open spec fn lookups_succeed<V>(fields: Seq<Field<V>>) -> bool {
    forall|i: int|
        0 <= i < fields.len() && #[trigger] reached(fields, i) && emits(fields[i].verdict())
            ==> fields[i].value is Some
}

/// Whether the walk over the schema comes to position `i`: no field before
/// it is a fault.
pub open spec fn reached<V>(fields: Seq<Field<V>>, i: int) -> bool {
    first_fault(field_slots(fields).take(i)) is None
}

/// Serializes a record by walking the declared fields of its type and
/// looking each one up on the instance.
pub struct DataclassFallbackSerializer<'a, V> {
    pub record: &'a Record<V>,
    pub state: RecordState,
    pub default: Option<HookRef>,
}

impl<'a, V> DataclassFallbackSerializer<'a, V> {
    /// A serializer for the record, one level below `state`.
    pub fn new(record: &'a Record<V>, state: RecordState, default: Option<HookRef>) -> (r: Self)
        requires
            state.depth < usize::MAX,
        ensures
            r.record == record,
            r.state == advanced(state, 1),
            r.default == default,
    {
        DataclassFallbackSerializer { record, state: state.advance(), default }
    }

    /// What serializing the declared fields gives.
    pub open spec fn spec_serialize(&self) -> Result<Seq<MemberView<V>>, SerializeError> {
        document(field_slots(self.record.fields@), self.state, self.default)
    }

    /// Walks the declared fields in declaration order. A field that is not
    /// ordinary is passed over; a name that does not decode ends the walk
    /// with `InvalidStr`; a field with a private name is passed over; every
    /// other field is emitted under its name, with the value that the
    /// instance holds for it, wrapped with this serializer's state and hook.
    ///
    /// That the instance holds a value for each emitted field is the
    /// caller's obligation.
    pub fn serialize(&self) -> (r: Result<Vec<Member<'a, V>>, SerializeError>)
        requires
            lookups_succeed(self.record.fields@),
        ensures
            result_view(r) == self.spec_serialize(),
    {
        let fields: &'a Vec<Field<V>> = &self.record.fields;
        let len = fields.len();
        let ghost slots = field_slots(fields@);
        if len == 0 {
            return Ok(EmptyMapEmitter::new().serialize());
        }
        let mut out: Vec<Member<'a, V>> = Vec::new();
        assert(members_view(out@) =~= emitted(slots.take(0), self.state, self.default));
        let mut i: usize = 0;
        while i < len
            invariant
                i <= len,
                len == fields@.len(),
                fields == &self.record.fields,
                lookups_succeed(fields@),
                slots == field_slots(fields@),
                first_fault(slots.take(i as int)) is None,
                members_view(out@) == emitted(slots.take(i as int), self.state, self.default),
            decreases len - i,
        {
            let field: &'a Field<V> = &fields[i];
            proof {
                lemma_take_step(slots, i as int);
            }
            match field.judge() {
                Err(e) => {
                    proof {
                        assert(slots[i as int].verdict == Err::<Option<Seq<char>>, SerializeError>(e));
                        assert(first_fault(slots.take(i as int + 1)) == Some(e));
                        lemma_first_fault_prefix(slots, i as int + 1);
                    }
                    return Err(e);
                },
                Ok(None) => {},
                Ok(Some(key)) => {
                    assert(reached(fields@, i as int));
                    match &field.value {
                        Some(value) => {
                            let ghost before = out@;
                            out.push(Member { key, value: ValueSerializer::new(value, self.state, self.default) });
                            assert(members_view(out@) =~= members_view(before).push(out@[before.len() as int]@));
                        },
                        None => {
                            assert(false);
                        },
                    }
                },
            }
            i += 1;
        }
        assert(slots.take(i as int) =~= slots);
        Ok(out)
    }

    /// The next thing the walk does from position `cursor` of the schema,
    /// where the walk has come to `cursor` without a fault.
    pub fn step(&self, cursor: usize) -> (r: Step<'a, V>)
        requires
            lookups_succeed(self.record.fields@),
            cursor <= self.record.fields@.len() ==> first_fault(field_slots(self.record.fields@).take(cursor as int)) is None,
        ensures
            step_matches(r, field_slots(self.record.fields@), cursor as int, self.state, self.default),
    {
        let fields: &'a Vec<Field<V>> = &self.record.fields;
        let len = fields.len();
        let ghost slots = field_slots(fields@);
        let mut i: usize = cursor;
        while i < len
            invariant
                cursor <= i,
                len == fields@.len(),
                fields == &self.record.fields,
                lookups_succeed(fields@),
                slots == field_slots(fields@),
                passed_over(slots, cursor as int, i as int),
                i <= len ==> first_fault(slots.take(i as int)) is None,
            decreases len - i,
        {
            let field: &'a Field<V> = &fields[i];
            proof {
                lemma_take_step(slots, i as int);
            }
            match field.judge() {
                Err(e) => {
                    assert(slots[i as int].verdict == Err::<Option<Seq<char>>, SerializeError>(e));
                    return Step::Fault { error: e };
                },
                Ok(None) => {},
                Ok(Some(key)) => {
                    assert(reached(fields@, i as int));
                    match &field.value {
                        Some(value) => {
                            let member = Member { key, value: ValueSerializer::new(value, self.state, self.default) };
                            return Step::Emit { member, next: i + 1 };
                        },
                        None => {
                            assert(false);
                        },
                    }
                },
            }
            i += 1;
        }
        Step::End
    }
}

/// What dispatching a record gives: `RecursionLimit` where the budget is
/// used up, else what the serializer it is routed to gives one level down.
pub open spec fn dispatched<V>(record: Record<V>, state: RecordState, default: Option<HookRef>) -> Result<Seq<MemberView<V>>, SerializeError> {
    if state.recursion_limit() {
        Err(SerializeError::RecursionLimit)
    } else {
        document(routed_slots(record), advanced(state, 1), default)
    }
}

/// The slots that a record is serialized from: those of its store where it
/// is routed there, else those of its declared fields.
pub open spec fn routed_slots<V>(record: Record<V>) -> Seq<Slot<V>> {
    match record.route() {
        Route::Fast => store_slots(record.store->0@),
        Route::Fallback => field_slots(record.fields@),
    }
}

/// The serializer that a record was routed to, set up to run.
pub enum Routed<'a, V> {
    Fast(DataclassFastSerializer<'a, V>),
    Fallback(DataclassFallbackSerializer<'a, V>),
}

/// Decides, for one record, which serializer applies, and runs it.
pub struct DataclassGenericSerializer<'a, V> {
    pub previous: &'a ValueSerializer<'a, Record<V>>,
}

impl<'a, V> DataclassGenericSerializer<'a, V> {
    /// A dispatcher for the record that `previous` wraps.
    pub fn new(previous: &'a ValueSerializer<'a, Record<V>>) -> (r: Self)
        ensures
            r.previous == previous,
    {
        Self { previous: previous }
    }

    /// What dispatching the wrapped record gives.
    pub open spec fn spec_serialize(&self) -> Result<Seq<MemberView<V>>, SerializeError> {
        dispatched(*self.previous.value, self.previous.state, self.previous.default)
    }

    /// Fails with `RecursionLimit` before any other work where the depth has
    /// reached the limit. Otherwise picks the store serializer if the record
    /// has a store and its type declares no fixed layout, and the field
    /// serializer if not; either is set up one level below the wrapped
    /// state, with the wrapped hook.
    pub fn dispatch(&self) -> (r: Result<Routed<'a, V>, SerializeError>)
        ensures
            r is Err <==> self.previous.state.recursion_limit(),
            r matches Err(e) ==> e == SerializeError::RecursionLimit,
            r matches Ok(Routed::Fast(fast)) ==> {
                &&& self.previous.value.route() == Route::Fast
                &&& *fast.store == self.previous.value.store->0
                &&& fast.state == advanced(self.previous.state, 1)
                &&& fast.default == self.previous.default
            },
            r matches Ok(Routed::Fallback(fallback)) ==> {
                &&& self.previous.value.route() == Route::Fallback
                &&& fallback.record == self.previous.value
                &&& fallback.state == advanced(self.previous.state, 1)
                &&& fallback.default == self.previous.default
            },
    {
        if self.previous.state.recursion_limit() {
            return Err(SerializeError::RecursionLimit);
        }
        let record: &'a Record<V> = self.previous.value;
        match &record.store {
            None => Ok(
                Routed::Fallback(
                    DataclassFallbackSerializer::new(record, self.previous.state, self.previous.default),
                ),
            ),
            Some(store) => {
                if record.fixed_layout {
                    Ok(
                        Routed::Fallback(
                            DataclassFallbackSerializer::new(record, self.previous.state, self.previous.default),
                        ),
                    )
                } else {
                    Ok(
                        Routed::Fast(
                            DataclassFastSerializer::new(store, self.previous.state, self.previous.default),
                        ),
                    )
                }
            },
        }
    }

    /// Dispatches the record and runs the serializer it is routed to.
    pub fn serialize(&self) -> (r: Result<Vec<Member<'a, V>>, SerializeError>)
        requires
            !self.previous.state.recursion_limit() && self.previous.value.route() == Route::Fallback
                ==> lookups_succeed(self.previous.value.fields@),
        ensures
            result_view(r) == self.spec_serialize(),
    {
        match self.dispatch() {
            Err(e) => Err(e),
            Ok(Routed::Fast(fast)) => fast.serialize(),
            Ok(Routed::Fallback(fallback)) => fallback.serialize(),
        }
    }
}

/// The outcome of a walk that emits `first` and then goes on as `rest`.
pub open spec fn emit_then<V>(first: MemberView<V>, rest: Result<Seq<MemberView<V>>, SerializeError>) -> Result<Seq<MemberView<V>>, SerializeError> {
    match rest {
        Ok(members) => Ok(seq![first] + members),
        Err(e) => Err(e),
    }
}

/// Steps add up to the whole walk. Where the slots from `cursor` up to `k`
/// are passed over, the walk from `cursor` is over if `k` is the end, fails
/// with the fault of slot `k` if it is one, and else emits the member of
/// slot `k` and goes on as the walk from behind `k` does.
pub proof fn lemma_steps_make_the_walk<V>(slots: Seq<Slot<V>>, cursor: int, k: int, state: RecordState, default: Option<HookRef>)
    requires
        0 <= cursor <= k <= slots.len(),
        passed_over(slots, cursor, k),
    ensures
        k == slots.len() ==> document(slots.skip(cursor), state, default) == Ok::<Seq<MemberView<V>>, SerializeError>(Seq::empty()),
        k < slots.len() ==> (match slots[k].verdict {
            Err(e) => document(slots.skip(cursor), state, default) == Err::<Seq<MemberView<V>>, SerializeError>(e),
            Ok(Some(key)) => document(slots.skip(cursor), state, default) == emit_then(
                MemberView { key, value: slots[k].value, state, default },
                document(slots.skip(k + 1), state, default),
            ),
            Ok(None) => document(slots.skip(cursor), state, default) == document(slots.skip(k + 1), state, default),
        }),
    decreases k - cursor,
{
    let here = slots.skip(cursor);
    if cursor == k {
        if k < slots.len() {
            let one = seq![slots[k]];
            let after = slots.skip(k + 1);
            assert(here =~= one + after);
            assert(one.drop_last() =~= Seq::<Slot<V>>::empty());
            assert(one.last() == slots[k]);
            assert(first_fault(one.drop_last()) is None);
            assert(emitted(one.drop_last(), state, default) =~= Seq::<MemberView<V>>::empty());
            lemma_first_fault_concat(one, after);
            lemma_emitted_concat(one, after, state, default);
            match slots[k].verdict {
                Ok(Some(key)) => {
                    let m = MemberView { key, value: slots[k].value, state, default };
                    assert(emitted(one, state, default) =~= seq![m]);
                },
                Ok(None) => {
                    assert(emitted(one, state, default) + emitted(after, state, default) =~= emitted(after, state, default));
                },
                Err(_) => {},
            }
        }
    } else {
        assert(slots[cursor].verdict == Ok::<Option<Seq<char>>, SerializeError>(None));
        assert(here[0] == slots[cursor]);
        lemma_passed_over_slot_leaves_no_trace(here, 0, state, default);
        assert(here.remove(0) =~= slots.skip(cursor + 1));
        lemma_steps_make_the_walk(slots, cursor + 1, k, state, default);
    }
}

/// A store without entries, and a schema without fields, serialize to the
/// mapping without entries.
pub proof fn lemma_nothing_declared_gives_empty_mapping<V>(entries: Seq<StoreEntry<V>>, fields: Seq<Field<V>>, state: RecordState, default: Option<HookRef>)
    ensures
        entries.len() == 0 ==> document(store_slots(entries), state, default) == Ok::<Seq<MemberView<V>>, SerializeError>(Seq::empty()),
        fields.len() == 0 ==> document(field_slots(fields), state, default) == Ok::<Seq<MemberView<V>>, SerializeError>(Seq::empty()),
{
}

/// A store entry whose key decodes and starts with an underscore is absent
/// from the output and raises no fault: the outcome is that of the store
/// without the entry, whatever its value.
pub proof fn lemma_private_store_entry_is_elided<V>(entries: Seq<StoreEntry<V>>, k: int, state: RecordState, default: Option<HookRef>)
    requires
        0 <= k < entries.len(),
        entries[k].key is Text,
        decodable(entries[k].key->Text_0@),
        is_private(entries[k].key->Text_0@),
    ensures
        document(store_slots(entries), state, default) == document(store_slots(entries.remove(k)), state, default),
{
    assert(store_slots(entries.remove(k)) =~= store_slots(entries).remove(k));
    lemma_passed_over_slot_leaves_no_trace(store_slots(entries), k, state, default);
}

/// A declared field that is not ordinary, or whose name decodes and starts
/// with an underscore, is absent from the output and raises no fault: the
/// outcome is that of the schema without the field, whatever its value.
pub proof fn lemma_private_or_derived_field_is_elided<V>(fields: Seq<Field<V>>, k: int, state: RecordState, default: Option<HookRef>)
    requires
        0 <= k < fields.len(),
        fields[k].kind != FieldKind::Ordinary || (decodable(fields[k].name@) && is_private(fields[k].name@)),
    ensures
        document(field_slots(fields), state, default) == document(field_slots(fields.remove(k)), state, default),
{
    assert(field_slots(fields.remove(k)) =~= field_slots(fields).remove(k));
    lemma_passed_over_slot_leaves_no_trace(field_slots(fields), k, state, default);
}

/// In a store, the first key that is a fault decides: one that is not
/// text-typed gives `KeyMustBeStr`, one that is text-typed but does not
/// decode gives `InvalidStr`.
pub proof fn lemma_store_key_faults<V>(entries: Seq<StoreEntry<V>>, k: int, state: RecordState, default: Option<HookRef>)
    requires
        0 <= k < entries.len(),
        forall|j: int| 0 <= j < k ==> (#[trigger] entries[j]).key.verdict() is Ok,
    ensures
        entries[k].key is NonText ==> document(store_slots(entries), state, default) == Err::<Seq<MemberView<V>>, SerializeError>(SerializeError::KeyMustBeStr),
        entries[k].key is Text && !decodable(entries[k].key->Text_0@) ==> document(store_slots(entries), state, default) == Err::<Seq<MemberView<V>>, SerializeError>(SerializeError::InvalidStr),
{
    let slots = store_slots(entries);
    assert forall|j: int| 0 <= j < k implies (#[trigger] slots[j]).verdict is Ok by {
        assert(entries[j].key.verdict() is Ok);
    }
    if slots[k].verdict is Err {
        lemma_document_first_fault(slots, k, state, default);
    }
}

/// Whether a schema and a store describe the same fields: entry by entry
/// the key is the field's name, the field is ordinary, and the instance
/// holds the entry's value for it.
pub open spec fn schema_matches_store<V>(fields: Seq<Field<V>>, entries: Seq<StoreEntry<V>>) -> bool {
    &&& fields.len() == entries.len()
    &&& forall|i: int|
        0 <= i < entries.len() ==> field_matches_entry(#[trigger] fields[i], entries[i])
}

/// Whether a field and a store entry describe the same field.
pub open spec fn field_matches_entry<V>(field: Field<V>, entry: StoreEntry<V>) -> bool {
    &&& entry.key is Text
    &&& entry.key->Text_0@ == field.name@
    &&& field.kind == FieldKind::Ordinary
    &&& field.value == Some(entry.value)
}

/// Where a schema and a store describe the same fields, the store
/// serializer and the field serializer give the same outcome: the same
/// keys in the same order with the same values, or the same fault.
pub proof fn lemma_fast_and_fallback_agree<V>(fields: Seq<Field<V>>, entries: Seq<StoreEntry<V>>, state: RecordState, default: Option<HookRef>)
    requires
        schema_matches_store(fields, entries),
    ensures
        document(store_slots(entries), state, default) == document(field_slots(fields), state, default),
{
    let a = store_slots(entries);
    let b = field_slots(fields);
    assert forall|i: int| 0 <= i < a.len() implies a[i] == b[i] by {
        assert(field_matches_entry(fields[i], entries[i]));
    }
    assert(a =~= b);
}

/// The depth budget. A pass starts at depth zero under limit `limit`; a
/// record that is met `d` levels down is refused with `RecursionLimit` if `d`
/// has reached `limit`. Below the limit it is serialized one level further
/// down by the serializer it is routed to, and that succeeds unless a key
/// or a name is a fault.
pub proof fn lemma_dispatch_keeps_the_budget<V>(record: Record<V>, limit: usize, hook: Option<HookRef>, default: Option<HookRef>, d: nat)
    requires
        d < usize::MAX,
    ensures
        d >= limit ==> dispatched(record, nested_state(limit, hook, d), default)
            == Err::<Seq<MemberView<V>>, SerializeError>(SerializeError::RecursionLimit),
        d < limit ==> dispatched(record, nested_state(limit, hook, d), default)
            == document(routed_slots(record), nested_state(limit, hook, d + 1), default),
        d < limit && (forall|j: int| 0 <= j < routed_slots(record).len() ==> (#[trigger] routed_slots(record)[j]).verdict is Ok)
            ==> dispatched(record, nested_state(limit, hook, d), default) is Ok,
{
    lemma_document_ok_iff_no_fault(routed_slots(record), nested_state(limit, hook, d + 1), default);
}

} // verus!
