use vstd::prelude::*;
use crate::state::HookRef;
use crate::state::RecordState;

verus! {

/// The generic per-value serializer that a field's value is handed on in:
/// the value, the state of the nested call, and the fallback hook.
///
/// Which kind of value it holds, and how that kind is written, is decided by
/// whoever consumes it.
#[derive(Debug, PartialEq)]
pub struct ValueSerializer<'a, V> {
    pub value: &'a V,
    pub state: RecordState,
    pub default: Option<HookRef>,
}

impl<'a, V> ValueSerializer<'a, V> {
    /// Wraps a value for serialization under the given state and hook.
    pub fn new(value: &'a V, state: RecordState, default: Option<HookRef>) -> (r: Self)
        ensures
            r.value == value,
            r.state == state,
            r.default == default,
    {
        ValueSerializer { value, state, default }
    }
}

/// One entry of a serialized mapping: the key, and the value still wrapped.
#[derive(Debug, PartialEq)]
pub struct Member<'a, V> {
    pub key: String,
    pub value: ValueSerializer<'a, V>,
}

/// What a [`Member`] stands for in contracts.
pub ghost struct MemberView<V> {
    pub key: Seq<char>,
    pub value: V,
    pub state: RecordState,
    pub default: Option<HookRef>,
}

impl<'a, V> View for Member<'a, V> {
    type V = MemberView<V>;

    open spec fn view(&self) -> MemberView<V> {
        MemberView {
            key: self.key@,
            value: *self.value.value,
            state: self.value.state,
            default: self.value.default,
        }
    }
}

/// The mapping that a sequence of members stands for, in emission order.
pub open spec fn members_view<'a, V>(members: Seq<Member<'a, V>>) -> Seq<MemberView<V>> {
    Seq::new(members.len(), |i: int| members[i]@)
}

/// Emits a zero-entry mapping without looking at any record.
#[derive(Clone, Copy, Debug, PartialEq, Eq)]
pub struct EmptyMapEmitter {}

impl EmptyMapEmitter {
    pub fn new() -> (r: Self) {
        EmptyMapEmitter {  }
    }

    /// The mapping with no entries.
    pub fn serialize<'a, V>(&self) -> (r: Vec<Member<'a, V>>)
        ensures
            r@.len() == 0,
            members_view(r@) == Seq::<MemberView<V>>::empty(),
    {
        let r: Vec<Member<'a, V>> = Vec::new();
        assert(members_view(r@) =~= Seq::<MemberView<V>>::empty());
        r
    }
}

} // verus!
