use vstd::prelude::*;
use crate::error::SerializeError;
use crate::state::HookRef;
use crate::state::RecordState;
use crate::text::decodable;
use crate::text::decoded;
use crate::text::is_private;
use crate::text::Text;
use crate::value::MemberView;

verus! {

/// What becomes of one entry: a fault that ends the mapping, `Ok(None)` for
/// an entry that is passed over in silence, or the key it is emitted under.
pub type Verdict = Result<Option<Seq<char>>, SerializeError>;

/// Whether the verdict is that the entry is emitted.
pub open spec fn emits(verdict: Verdict) -> bool {
    verdict matches Ok(Some(_))
}

/// The verdict on a text-typed name: it must decode, and a private name is
/// passed over.
pub open spec fn name_verdict(units: Seq<u32>) -> Verdict {
    if !decodable(units) {
        Err(SerializeError::InvalidStr)
    } else if is_private(units) {
        Ok(None)
    } else {
        Ok(Some(decoded(units)))
    }
}

/// The verdict on a text-typed name.
pub fn judge_name(name: &Text) -> (r: Result<Option<String>, SerializeError>)
    ensures
        verdict_view(r) == name_verdict(name@),
{
    match name.to_str() {
        None => Err(SerializeError::InvalidStr),
        Some(key) => {
            if name.is_private() {
                Ok(None)
            } else {
                Ok(Some(key))
            }
        },
    }
}

/// The verdict that an executable result stands for.
pub open spec fn verdict_view(r: Result<Option<String>, SerializeError>) -> Verdict {
    match r {
        Ok(Some(key)) => Ok(Some(key@)),
        Ok(None) => Ok(None),
        Err(e) => Err(e),
    }
}

/// A key of a backing store. The host lets any value be a key; only a
/// text-typed one can become a key of the mapping.
#[derive(Clone, Debug, PartialEq, Eq)]
pub enum StoreKey {
    NonText,
    Text(Text),
}

impl StoreKey {
    /// A key that is not text-typed is a fault; a text-typed one is judged
    /// as a name.
    pub open spec fn verdict(self) -> Verdict {
        match self {
            StoreKey::NonText => Err(SerializeError::KeyMustBeStr),
            StoreKey::Text(name) => name_verdict(name@),
        }
    }

    /// The verdict on this key.
    pub fn judge(&self) -> (r: Result<Option<String>, SerializeError>)
        ensures
            verdict_view(r) == self.verdict(),
    {
        match self {
            StoreKey::NonText => Err(SerializeError::KeyMustBeStr),
            StoreKey::Text(name) => judge_name(name),
        }
    }
}

/// One entry of a backing store.
#[derive(Clone, Debug, PartialEq, Eq)]
pub struct StoreEntry<V> {
    pub key: StoreKey,
    pub value: V,
}

/// The declared kind of a field: one that stores a value, or a derived
/// pseudo-field that the schema lists but that is not serialized.
#[derive(Clone, Copy, Debug, PartialEq, Eq)]
pub enum FieldKind {
    Ordinary,
    Derived,
}

/// A declared field of a record's type, with what an attribute lookup for it
/// on the instance yields (`None` where the instance has no such attribute).
#[derive(Clone, Debug, PartialEq, Eq)]
pub struct Field<V> {
    pub name: Text,
    pub kind: FieldKind,
    pub value: Option<V>,
}

impl<V> Field<V> {
    /// A field that is not ordinary is passed over, whatever its name;
    /// an ordinary one is judged by its name.
    pub open spec fn verdict(self) -> Verdict {
        match self.kind {
            FieldKind::Ordinary => name_verdict(self.name@),
            FieldKind::Derived => Ok(None),
        }
    }

    /// The verdict on this field.
    pub fn judge(&self) -> (r: Result<Option<String>, SerializeError>)
        ensures
            verdict_view(r) == self.verdict(),
    {
        match self.kind {
            FieldKind::Ordinary => judge_name(&self.name),
            FieldKind::Derived => Ok(None),
        }
    }
}

/// A record instance as the serializers see it.
#[derive(Clone, Debug, PartialEq, Eq)]
pub struct Record<V> {
    /// The enumerable backing store, where one can be acquired.
    pub store: Option<Vec<StoreEntry<V>>>,
    /// Whether the type declares a fixed layout, which rules the store out.
    pub fixed_layout: bool,
    /// The declared fields, in declaration order.
    pub fields: Vec<Field<V>>,
}

/// The serializer that a record is routed to.
#[derive(Clone, Copy, Debug, PartialEq, Eq)]
pub enum Route {
    Fast,
    Fallback,
}

impl<V> Record<V> {
    /// The store is used only where it is present and the type declares no
    /// fixed layout.
    pub open spec fn spec_route(&self) -> Route {
        if self.store is Some && !self.fixed_layout {
            Route::Fast
        } else {
            Route::Fallback
        }
    }

    /// Which serializer this record goes to.
    #[verifier::when_used_as_spec(spec_route)]
    pub fn route(&self) -> (r: Route)
        ensures
            r == self.spec_route(),
    {
        match &self.store {
            None => Route::Fallback,
            Some(_) => {
                if self.fixed_layout {
                    Route::Fallback
                } else {
                    Route::Fast
                }
            },
        }
    }
}

/// An entry reduced to what decides the output: its verdict and its value.
pub ghost struct Slot<V> {
    pub verdict: Verdict,
    pub value: V,
}

/// The slots of a backing store, in iteration order.
pub open spec fn store_slots<V>(entries: Seq<StoreEntry<V>>) -> Seq<Slot<V>> {
    Seq::new(entries.len(), |i: int| Slot { verdict: entries[i].key.verdict(), value: entries[i].value })
}

/// The slots of a field schema, in declaration order.
pub open spec fn field_slots<V>(fields: Seq<Field<V>>) -> Seq<Slot<V>> {
    Seq::new(fields.len(), |i: int| Slot { verdict: fields[i].verdict(), value: fields[i].value->0 })
}

/// The first fault among the slots, if there is one.
pub open spec fn first_fault<V>(slots: Seq<Slot<V>>) -> Option<SerializeError>
    decreases slots.len(),
{
    if slots.len() == 0 {
        None
    } else {
        match first_fault(slots.drop_last()) {
            Some(e) => Some(e),
            None => match slots.last().verdict {
                Err(e) => Some(e),
                Ok(_) => None,
            },
        }
    }
}

/// The members that the slots give, in order: one for each slot with a key,
/// its value wrapped with the given state and hook.
pub open spec fn emitted<V>(slots: Seq<Slot<V>>, state: RecordState, default: Option<HookRef>) -> Seq<MemberView<V>>
    decreases slots.len(),
{
    if slots.len() == 0 {
        Seq::empty()
    } else {
        let before = emitted(slots.drop_last(), state, default);
        match slots.last().verdict {
            Ok(Some(key)) => before.push(MemberView { key, value: slots.last().value, state, default }),
            _ => before,
        }
    }
}

/// The outcome of serializing the slots: the first fault, or else the
/// mapping of all emitted members.
pub open spec fn document<V>(slots: Seq<Slot<V>>, state: RecordState, default: Option<HookRef>) -> Result<Seq<MemberView<V>>, SerializeError> {
    match first_fault(slots) {
        Some(e) => Err(e),
        None => Ok(emitted(slots, state, default)),
    }
}

/// A fault among the first `n` slots is the first fault of all of them.
pub proof fn lemma_first_fault_prefix<V>(slots: Seq<Slot<V>>, n: int)
    requires
        0 <= n <= slots.len(),
        first_fault(slots.take(n)) is Some,
    ensures
        first_fault(slots) == first_fault(slots.take(n)),
    decreases slots.len() - n,
{
    if n == slots.len() {
        assert(slots.take(n) =~= slots);
    } else {
        assert(slots.take(n + 1).drop_last() =~= slots.take(n));
        lemma_first_fault_prefix(slots, n + 1);
    }
}

/// Walking two runs of slots one after the other gives the first fault of
/// the first run, or else that of the second.
pub proof fn lemma_first_fault_concat<V>(a: Seq<Slot<V>>, b: Seq<Slot<V>>)
    ensures
        first_fault(a + b) == (match first_fault(a) {
            Some(e) => Some(e),
            None => first_fault(b),
        }),
    decreases b.len(),
{
    if b.len() == 0 {
        assert(a + b =~= a);
    } else {
        assert((a + b).drop_last() =~= a + b.drop_last());
        assert((a + b).last() == b.last());
        lemma_first_fault_concat(a, b.drop_last());
    }
}

/// Walking two runs of slots one after the other emits the members of the
/// first run, then those of the second.
pub proof fn lemma_emitted_concat<V>(a: Seq<Slot<V>>, b: Seq<Slot<V>>, state: RecordState, default: Option<HookRef>)
    ensures
        emitted(a + b, state, default) == emitted(a, state, default) + emitted(b, state, default),
    decreases b.len(),
{
    if b.len() == 0 {
        assert(a + b =~= a);
        assert(emitted(a, state, default) + emitted(b, state, default) =~= emitted(a, state, default));
    } else {
        assert((a + b).drop_last() =~= a + b.drop_last());
        assert((a + b).last() == b.last());
        lemma_emitted_concat(a, b.drop_last(), state, default);
        let front = emitted(a, state, default);
        let back = emitted(b.drop_last(), state, default);
        match b.last().verdict {
            Ok(Some(key)) => {
                let m = MemberView { key, value: b.last().value, state, default };
                assert((front + back).push(m) =~= front + back.push(m));
            },
            _ => {},
        }
    }
}

/// Serialization succeeds exactly when no slot is a fault.
pub proof fn lemma_document_ok_iff_no_fault<V>(slots: Seq<Slot<V>>, state: RecordState, default: Option<HookRef>)
    ensures
        document(slots, state, default) is Ok <==> (forall|j: int| 0 <= j < slots.len() ==> (#[trigger] slots[j]).verdict is Ok),
    decreases slots.len(),
{
    if slots.len() > 0 {
        let front = slots.drop_last();
        lemma_document_ok_iff_no_fault(front, state, default);
        if document(slots, state, default) is Ok {
            assert forall|j: int| 0 <= j < slots.len() implies (#[trigger] slots[j]).verdict is Ok by {
                if j < front.len() {
                    assert(front[j] == slots[j]);
                }
            }
        } else if first_fault(front) is None {
            assert(slots.last() == slots[slots.len() - 1]);
        } else {
            let j = choose|j: int| 0 <= j < front.len() && !((#[trigger] front[j]).verdict is Ok);
            assert(front[j] == slots[j]);
        }
    }
}

/// Serialization fails with the fault of the first slot that is one.
pub proof fn lemma_document_first_fault<V>(slots: Seq<Slot<V>>, k: int, state: RecordState, default: Option<HookRef>)
    requires
        0 <= k < slots.len(),
        forall|j: int| 0 <= j < k ==> (#[trigger] slots[j]).verdict is Ok,
        slots[k].verdict is Err,
    ensures
        document(slots, state, default) == Err::<Seq<MemberView<V>>, SerializeError>(slots[k].verdict->Err_0),
{
    let before = slots.take(k);
    let rest = slots.skip(k);
    assert(slots =~= before + rest);
    lemma_first_fault_concat(before, rest);
    assert forall|j: int| 0 <= j < before.len() implies (#[trigger] before[j]).verdict is Ok by {
        assert(before[j] == slots[j]);
    }
    lemma_document_ok_iff_no_fault(before, state, default);
    let one = rest.take(1);
    assert(rest =~= one + rest.skip(1));
    lemma_first_fault_concat(one, rest.skip(1));
    assert(one.drop_last() =~= Seq::<Slot<V>>::empty());
    assert(one.last() == slots[k]);
    assert(first_fault(one.drop_last()) is None);
}

/// A slot that is passed over leaves no trace: without it, the outcome is
/// the same, whatever value the slot holds.
pub proof fn lemma_passed_over_slot_leaves_no_trace<V>(slots: Seq<Slot<V>>, k: int, state: RecordState, default: Option<HookRef>)
    requires
        0 <= k < slots.len(),
        slots[k].verdict == Ok::<Option<Seq<char>>, SerializeError>(None),
    ensures
        document(slots.remove(k), state, default) == document(slots, state, default),
{
    let before = slots.take(k);
    let one = seq![slots[k]];
    let after = slots.skip(k + 1);
    assert(slots =~= before + (one + after));
    assert(slots.remove(k) =~= before + after);
    assert(one.drop_last() =~= Seq::<Slot<V>>::empty());
    assert(one.last() == slots[k]);
    assert(first_fault(one.drop_last()) is None);
    assert(emitted(one.drop_last(), state, default) =~= Seq::<MemberView<V>>::empty());
    lemma_first_fault_concat(one, after);
    lemma_emitted_concat(one, after, state, default);
    assert(emitted(one, state, default) + emitted(after, state, default) =~= emitted(after, state, default));
    lemma_first_fault_concat(before, one + after);
    lemma_emitted_concat(before, one + after, state, default);
    lemma_first_fault_concat(before, after);
    lemma_emitted_concat(before, after, state, default);
}

/// A name that decodes and starts with an underscore is passed over, and no
/// name that is emitted starts with one.
pub proof fn lemma_private_names_are_passed_over(units: Seq<u32>)
    ensures
        decodable(units) && is_private(units) ==> name_verdict(units) == Ok::<Option<Seq<char>>, SerializeError>(None),
        name_verdict(units) matches Ok(Some(key)) ==> !(key.len() > 0 && key[0] == '_'),
{
    if decodable(units) && !is_private(units) && units.len() > 0 {
        let key = decoded(units);
        assert(vstd::utf8::is_scalar(units[0]));
        assert(key[0] == units[0] as char);
        assert(key[0] as u32 == units[0]);
        assert('_' as u32 == 0x5F);
    }
}

} // verus!
