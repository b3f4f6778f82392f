//! Reassembly: fragments of the current message are kept by number until
//! every number up to the final one is there. A fragment of another message
//! discards what was kept.

use std::collections::BTreeMap;
use vstd::prelude::*;
use crate::transport::fragment::{Fragment, FragmentView};

verus! {

/// The mathematical content of a `FragmentAssembly`.
pub struct AssemblyView {
    /// The message being put together, if any fragment came yet.
    pub current_id: Option<u64>,
    /// The payloads that came, by fragment number.
    pub arrived: Map<u16, Seq<u8>>,
    /// The number of the final fragment, once it came.
    pub final_num: Option<u16>,
}

/// The state before any fragment came.
pub open spec fn empty_assembly() -> AssemblyView {
    AssemblyView { current_id: None, arrived: Map::empty(), final_num: None }
}

/// The state ready for fragments of message `id`: unchanged where `id` is
/// the current message, emptied and set to `id` where it is not.
pub open spec fn reset_for(s: AssemblyView, id: u64) -> AssemblyView {
    if s.current_id == Some(id) {
        s
    } else {
        AssemblyView { current_id: Some(id), arrived: Map::empty(), final_num: None }
    }
}

/// The state after a fragment came.
pub open spec fn accept(s: AssemblyView, f: FragmentView) -> AssemblyView {
    let r = reset_for(s, f.instruction_id);
    AssemblyView {
        current_id: Some(f.instruction_id),
        arrived: r.arrived.insert(f.fragment_num, f.payload),
        final_num: if f.is_final {
            Some(f.fragment_num)
        } else {
            r.final_num
        },
    }
}

/// The payloads numbered below `count`, one after the other.
pub open spec fn joined(arrived: Map<u16, Seq<u8>>, count: nat) -> Seq<u8>
    decreases count,
{
    if count == 0 {
        Seq::empty()
    } else {
        joined(arrived, (count - 1) as nat) + arrived[(count - 1) as u16]
    }
}

/// Whether the final fragment and every one before it came.
pub open spec fn complete(s: AssemblyView) -> bool {
    s.final_num matches Some(n) && forall|i: u16| i <= n ==> s.arrived.contains_key(i)
}

/// The message, where it is complete.
pub open spec fn output(s: AssemblyView) -> Option<Seq<u8>> {
    if complete(s) {
        Some(joined(s.arrived, (s.final_num->0 + 1) as nat))
    } else {
        None
    }
}

/// The state after a sequence of fragments came, one by one.
pub open spec fn feed(s: AssemblyView, frags: Seq<FragmentView>) -> AssemblyView
    decreases frags.len(),
{
    if frags.len() == 0 {
        s
    } else {
        accept(feed(s, frags.drop_last()), frags.last())
    }
}

/// Puts the fragments of one message together.
pub struct FragmentAssembly {
    current_id: Option<u64>,
    arrived: BTreeMap<u16, Vec<u8>>,
    final_fragment_num: Option<u16>,
}

impl View for FragmentAssembly {
    type V = AssemblyView;

    closed spec fn view(&self) -> AssemblyView {
        AssemblyView {
            current_id: self.current_id,
            arrived: self.arrived@.map_values(|v: Vec<u8>| v@),
            final_num: self.final_fragment_num,
        }
    }
}

/// Stores a payload under a fragment number, over what was there.
fn slot_put(arrived: &mut BTreeMap<u16, Vec<u8>>, num: u16, payload: Vec<u8>)
    ensures
        final(arrived)@ == old(arrived)@.insert(num, payload),
{
    broadcast use vstd::laws_cmp::group_laws_cmp;

    arrived.insert(num, payload);
}

/// The payload stored under a fragment number, if any.
fn slot_get(arrived: &BTreeMap<u16, Vec<u8>>, num: u16) -> (r: Option<&Vec<u8>>)
    ensures
        r is Some <==> arrived@.contains_key(num),
        r matches Some(v) ==> *v == arrived@[num],
{
    broadcast use vstd::laws_cmp::group_laws_cmp;
    broadcast use vstd::std_specs::btree::group_btree_axioms;

    arrived.get(&num)
}

impl FragmentAssembly {
    /// An assembly that has seen no fragment.
    pub fn new() -> (a: FragmentAssembly)
        ensures
            a@ == empty_assembly(),
    {
        let a = FragmentAssembly {
            current_id: None,
            arrived: BTreeMap::new(),
            final_fragment_num: None,
        };
        assert(a@.arrived =~= Map::empty());
        a
    }

    /// Takes one fragment in; gives the message once it is complete.
    ///
    /// The state stays as it is after a message came out: a fragment of the
    /// same message that comes again is stored again and the message comes
    /// out again.
    pub fn add_fragment(&mut self, frag: Fragment) -> (r: Option<Vec<u8>>)
        ensures
            final(self)@ == accept(old(self)@, frag@),
            r is Some <==> output(final(self)@) is Some,
            r matches Some(bytes) ==> output(final(self)@) == Some(bytes@),
    {
        self.reset_if_new_id(frag.instruction_id);
        if frag.is_final {
            self.final_fragment_num = Some(frag.fragment_num);
        }
        let ghost before = self.arrived@;
        slot_put(&mut self.arrived, frag.fragment_num, frag.payload);
        assert(self@.arrived =~= before.map_values(|v: Vec<u8>| v@).insert(
            frag.fragment_num,
            frag.payload@,
        ));
        self.try_assemble()
    }

    /// Makes ready for fragments of message `id`, and says whether what was
    /// kept had to go for it.
    pub fn reset_if_new_id(&mut self, id: u64) -> (was_reset: bool)
        ensures
            final(self)@ == reset_for(old(self)@, id),
            was_reset <==> old(self)@.current_id != Some(id),
    {
        let same = match self.current_id {
            Some(current) => current == id,
            None => false,
        };
        if same {
            false
        } else {
            self.arrived.clear();
            self.final_fragment_num = None;
            self.current_id = Some(id);
            assert(self@.arrived =~= Map::empty());
            true
        }
    }

    /// The message, where the final fragment and every one before it came.
    pub fn try_assemble(&self) -> (r: Option<Vec<u8>>)
        ensures
            r is Some <==> output(self@) is Some,
            r matches Some(bytes) ==> output(self@) == Some(bytes@),
    {
        let final_num = match self.final_fragment_num {
            Some(n) => n,
            None => { return None; },
        };
        let ghost arrived = self@.arrived;
        let mut assembled: Vec<u8> = Vec::new();
        let mut num: u16 = 0;
        loop
            invariant
                num <= final_num,
                arrived == self@.arrived,
                self@.final_num == Some(final_num),
                forall|i: u16| i < num ==> arrived.contains_key(i),
                assembled@ == joined(arrived, num as nat),
            decreases final_num - num,
        {
            match slot_get(&self.arrived, num) {
                None => {
                    assert(!arrived.contains_key(num));
                    return None;
                },
                Some(payload) => {
                    assert(arrived[num] == payload@);
                    assembled.extend_from_slice(payload.as_slice());
                    assert(assembled@ =~= joined(arrived, (num + 1) as nat));
                },
            }
            if num == final_num {
                assert forall|i: u16| i <= final_num implies arrived.contains_key(i) by {
                    if i < num {
                    }
                }
                return Some(assembled);
            }
            num = num + 1;
        }
    }

    /// The message being put together, if any fragment came yet.
    pub fn current_id(&self) -> (id: Option<u64>)
        ensures
            id == self@.current_id,
    {
        self.current_id
    }
}

impl Default for FragmentAssembly {
    fn default() -> (a: FragmentAssembly)
        ensures
            a@ == empty_assembly(),
    {
        FragmentAssembly::new()
    }
}

} // verus!
