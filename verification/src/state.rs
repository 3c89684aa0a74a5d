use vstd::prelude::*;

verus! {

/// An opaque reference to the caller-supplied fallback conversion hook.
#[derive(Clone, Copy, Debug, PartialEq, Eq)]
pub struct HookRef {
    pub id: usize,
}

/// The state threaded through nested serialization calls: how deep the
/// current call is, how deep calls may go, and the fallback conversion hook.
///
/// A state is never changed in place: recursing takes an advanced copy, so
/// sibling branches never see each other's depth.
#[derive(Clone, Copy, Debug, PartialEq, Eq)]
pub struct RecordState {
    pub depth: usize,
    pub limit: usize,
    pub fallback_hook: Option<HookRef>,
}

/// The state reached from `state` by `n` nested calls.
pub open spec fn advanced(state: RecordState, n: nat) -> RecordState {
    RecordState {
        depth: (state.depth + n) as usize,
        limit: state.limit,
        fallback_hook: state.fallback_hook,
    }
}

impl RecordState {
    /// The state of a top-level call: depth zero under the given limit.
    pub fn new(limit: usize, fallback_hook: Option<HookRef>) -> (r: RecordState)
        ensures
            r == (RecordState { depth: 0, limit, fallback_hook }),
    {
        RecordState { depth: 0, limit, fallback_hook }
    }

    /// Whether the depth budget is used up.
    pub open spec fn spec_recursion_limit(&self) -> bool {
        self.depth >= self.limit
    }

    /// Whether the depth budget is used up: the depth has reached the limit.
    #[verifier::when_used_as_spec(spec_recursion_limit)]
    pub fn recursion_limit(&self) -> (r: bool)
        ensures
            r == (self.depth >= self.limit),
    {
        self.depth >= self.limit
    }

    /// The state for one level of recursion: depth plus one, the same limit
    /// and the same hook. `self` is left as it was.
    pub fn advance(&self) -> (r: RecordState)
        requires
            self.depth < usize::MAX,
        ensures
            r == advanced(*self, 1),
            r.depth == self.depth + 1,
            r.limit == self.limit,
            r.fallback_hook == self.fallback_hook,
    {
        RecordState {
            depth: self.depth + 1,
            limit: self.limit,
            fallback_hook: self.fallback_hook,
        }
    }
}

/// The state `d` levels down in a pass that started at depth zero under
/// limit `limit`.
pub open spec fn nested_state(limit: usize, hook: Option<HookRef>, d: nat) -> RecordState {
    advanced(RecordState { depth: 0, limit, fallback_hook: hook }, d)
}

/// A pass that starts at depth zero under limit `limit` has used up its
/// budget `d` levels down exactly when `d` has reached `limit`; the hook and
/// the limit are the same at every level.
pub proof fn lemma_budget_exhausted_at_limit(limit: usize, hook: Option<HookRef>, d: nat)
    requires
        d <= usize::MAX,
    ensures
        nested_state(limit, hook, d).spec_recursion_limit() <==> d >= limit,
        nested_state(limit, hook, d).fallback_hook == hook,
        nested_state(limit, hook, d).limit == limit,
        d < usize::MAX ==> advanced(nested_state(limit, hook, d), 1) == nested_state(limit, hook, d + 1),
{
}

} // verus!
