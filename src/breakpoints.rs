use vstd::prelude::*;

verus! {

/// A source file that a breakpoint was requested in.
#[derive(Debug, Clone)]
pub struct Source {
    pub name: Option<String>,
    pub path: Option<String>,
}

/// The text of an optional string, as a mathematical value.
pub open spec fn text_of(s: Option<String>) -> Option<Seq<char>> {
    match s {
        Some(t) => Some(t@),
        None => None,
    }
}

/// What a breakpoint type is, abstracted from its string storage.
pub enum BreakpointKind {
    Instruction,
    Source { name: Option<Seq<char>>, path: Option<Seq<char>> },
}

/// The supported breakpoint types.
#[derive(Debug, Clone)]
pub enum BreakpointType {
    InstructionBreakpoint,
    SourceBreakpoint(Source),
}

impl View for BreakpointType {
    type V = BreakpointKind;

    open spec fn view(&self) -> BreakpointKind {
        match self {
            BreakpointType::InstructionBreakpoint => BreakpointKind::Instruction,
            BreakpointType::SourceBreakpoint(s) => BreakpointKind::Source {
                name: text_of(s.name),
                path: text_of(s.path),
            },
        }
    }
}

fn same_text(a: &Option<String>, b: &Option<String>) -> (r: bool)
    ensures
        r == (text_of(*a) == text_of(*b)),
{
    match (a, b) {
        (Some(x), Some(y)) => x.eq(y),
        (None, None) => true,
        _ => false,
    }
}

impl PartialEq for BreakpointType {
    fn eq(&self, other: &BreakpointType) -> (r: bool) {
        match (self, other) {
            (BreakpointType::InstructionBreakpoint, BreakpointType::InstructionBreakpoint) => true,
            (BreakpointType::SourceBreakpoint(a), BreakpointType::SourceBreakpoint(b)) => {
                same_text(&a.name, &b.name) && same_text(&a.path, &b.path)
            },
            _ => false,
        }
    }
}

impl vstd::std_specs::cmp::PartialEqSpecImpl for BreakpointType {
    open spec fn obeys_eq_spec() -> bool {
        true
    }

    open spec fn eq_spec(&self, other: &BreakpointType) -> bool {
        self@ == other@
    }
}

/// One breakpoint that is set on the hardware, as recorded in a core's ledger.
#[derive(Debug, Clone)]
pub struct ActiveBreakpoint {
    pub breakpoint_type: BreakpointType,
    pub breakpoint_address: u64,
}

impl View for ActiveBreakpoint {
    type V = (BreakpointKind, u64);

    open spec fn view(&self) -> (BreakpointKind, u64) {
        (self.breakpoint_type@, self.breakpoint_address)
    }
}

/// A ledger of breakpoints as a sequence of (type, address) records, in insertion order.
pub type Ledger = Seq<(BreakpointKind, u64)>;

/// The model of a stored ledger.
pub open spec fn ledger_of(v: Seq<ActiveBreakpoint>) -> Ledger {
    v.map_values(|b: ActiveBreakpoint| b@)
}

/// The ledger with its earliest record at `address` taken out; unchanged if there is none.
pub open spec fn remove_first_at(l: Ledger, address: u64) -> Ledger
    decreases l.len(),
{
    if l.len() == 0 {
        l
    } else if l[0].1 == address {
        l.drop_first()
    } else {
        seq![l[0]] + remove_first_at(l.drop_first(), address)
    }
}

/// The addresses of the records of one type, in ledger order.
pub open spec fn addresses_of_kind(l: Ledger, kind: BreakpointKind) -> Seq<u64>
    decreases l.len(),
{
    if l.len() == 0 {
        Seq::empty()
    } else if l[0].0 == kind {
        seq![l[0].1] + addresses_of_kind(l.drop_first(), kind)
    } else {
        addresses_of_kind(l.drop_first(), kind)
    }
}

/// The ledger after the addresses were cleared one after another, skipping those that the
/// hardware refused to clear.
pub open spec fn clear_each(l: Ledger, addresses: Seq<u64>, cleared: Seq<bool>) -> Ledger
    decreases addresses.len(),
{
    if addresses.len() == 0 {
        l
    } else {
        let next = if cleared[0] {
            remove_first_at(l, addresses[0])
        } else {
            l
        };
        clear_each(next, addresses.drop_first(), cleared.drop_first())
    }
}

/// No record of another type shares an address with a record of type `kind`.
pub open spec fn addresses_exclusive_to(l: Ledger, kind: BreakpointKind) -> bool {
    forall|i: int, j: int|
        0 <= i < l.len() && 0 <= j < l.len() && l[i].0 == kind && l[j].1 == l[i].1 ==> l[j].0
            == kind
}

/// The records whose type is not `kind`, in ledger order.
pub open spec fn without_kind(l: Ledger, kind: BreakpointKind) -> Ledger
    decreases l.len(),
{
    if l.len() == 0 {
        l
    } else if l[0].0 == kind {
        without_kind(l.drop_first(), kind)
    } else {
        seq![l[0]] + without_kind(l.drop_first(), kind)
    }
}

/// As many `true` outcomes as there are addresses.
pub open spec fn all_cleared(n: nat) -> Seq<bool> {
    Seq::new(n, |i: int| true)
}

/// Removing at the position of the earliest record with that address is `remove_first_at`.
pub proof fn lemma_remove_first_at_index(l: Ledger, address: u64, i: int)
    requires
        0 <= i < l.len(),
        l[i].1 == address,
        forall|k: int| 0 <= k < i ==> l[k].1 != address,
    ensures
        remove_first_at(l, address) == l.remove(i),
    decreases l.len(),
{
    if i == 0 {
        assert(l.remove(0) =~= l.drop_first());
    } else {
        let t = l.drop_first();
        assert(t[i - 1].1 == address);
        assert forall|k: int| 0 <= k < i - 1 implies t[k].1 != address by {
            assert(t[k] == l[k + 1]);
        }
        lemma_remove_first_at_index(t, address, i - 1);
        assert(seq![l[0]] + t.remove(i - 1) =~= l.remove(i));
    }
}

/// Without a record at that address, `remove_first_at` changes nothing.
pub proof fn lemma_remove_first_at_absent(l: Ledger, address: u64)
    requires
        forall|k: int| 0 <= k < l.len() ==> l[k].1 != address,
    ensures
        remove_first_at(l, address) == l,
    decreases l.len(),
{
    if l.len() > 0 {
        let t = l.drop_first();
        assert forall|k: int| 0 <= k < t.len() implies t[k].1 != address by {
            assert(t[k] == l[k + 1]);
        }
        lemma_remove_first_at_absent(t, address);
        assert(seq![l[0]] + t =~= l);
    }
}

/// Recording a breakpoint adds its record and keeps every earlier record where it was.
pub proof fn lemma_set_breakpoint_keeps_ledger(l: Ledger, kind: BreakpointKind, address: u64)
    ensures
        l.push((kind, address)).contains((kind, address)),
        l.push((kind, address)).len() == l.len() + 1,
        forall|i: int| 0 <= i < l.len() ==> l.push((kind, address))[i] == l[i],
{
    assert(l.push((kind, address))[l.len() as int] == (kind, address));
}

/// Clearing an address takes out exactly one record, the earliest one at that address, and
/// keeps all others, later records at the same address among them. Without a record at that
/// address the ledger is unchanged.
pub proof fn lemma_clear_breakpoint_removes_earliest(l: Ledger, address: u64)
    ensures
        (forall|k: int| 0 <= k < l.len() ==> l[k].1 != address) ==> remove_first_at(l, address)
            == l,
        (exists|k: int| 0 <= k < l.len() && l[k].1 == address) ==> exists|i: int|
            0 <= i < l.len() && l[i].1 == address && (forall|k: int| 0 <= k < i ==> l[k].1 != address)
                && remove_first_at(l, address) == l.remove(i),
    decreases l.len(),
{
    if forall|k: int| 0 <= k < l.len() ==> l[k].1 != address {
        lemma_remove_first_at_absent(l, address);
    } else if l[0].1 == address {
        lemma_remove_first_at_index(l, address, 0);
    } else {
        let t = l.drop_first();
        let w = choose|k: int| 0 <= k < l.len() && l[k].1 == address;
        assert(t[w - 1] == l[w]);
        lemma_clear_breakpoint_removes_earliest(t, address);
        let j = choose|j: int|
            0 <= j < t.len() && t[j].1 == address && (forall|k: int| 0 <= k < j ==> t[k].1 != address)
                && remove_first_at(t, address) == t.remove(j);
        assert forall|k: int| 0 <= k < j + 1 implies l[k].1 != address by {
            if k > 0 {
                assert(l[k] == t[k - 1]);
            }
        }
        lemma_remove_first_at_index(l, address, j + 1);
    }
}

proof fn lemma_remove_first_at_behind(x: (BreakpointKind, u64), t: Ledger, address: u64)
    requires
        x.1 != address,
    ensures
        remove_first_at(seq![x] + t, address) == seq![x] + remove_first_at(t, address),
{
    assert((seq![x] + t).drop_first() =~= t);
}

proof fn lemma_clear_each_behind(
    x: (BreakpointKind, u64),
    t: Ledger,
    addresses: Seq<u64>,
    cleared: Seq<bool>,
)
    requires
        forall|i: int| 0 <= i < addresses.len() ==> addresses[i] != x.1,
    ensures
        clear_each(seq![x] + t, addresses, cleared) == seq![x] + clear_each(t, addresses, cleared),
    decreases addresses.len(),
{
    if addresses.len() > 0 {
        let next_t = if cleared[0] {
            remove_first_at(t, addresses[0])
        } else {
            t
        };
        if cleared[0] {
            lemma_remove_first_at_behind(x, t, addresses[0]);
        }
        lemma_clear_each_behind(x, next_t, addresses.drop_first(), cleared.drop_first());
    }
}

proof fn lemma_addresses_of_kind_come_from(l: Ledger, kind: BreakpointKind)
    ensures
        forall|i: int|
            #![trigger addresses_of_kind(l, kind)[i]]
            0 <= i < addresses_of_kind(l, kind).len() ==> exists|j: int|
                #![trigger l[j]]
                0 <= j < l.len() && l[j].0 == kind && l[j].1 == addresses_of_kind(l, kind)[i],
    decreases l.len(),
{
    if l.len() > 0 {
        let t = l.drop_first();
        lemma_addresses_of_kind_come_from(t, kind);
        assert forall|i: int|
            #![trigger addresses_of_kind(l, kind)[i]]
            0 <= i < addresses_of_kind(l, kind).len() implies exists|j: int|
                #![trigger l[j]]
                0 <= j < l.len() && l[j].0 == kind && l[j].1 == addresses_of_kind(l, kind)[i] by {
            if l[0].0 == kind && i == 0 {
                assert(l[0].1 == addresses_of_kind(l, kind)[0]);
            } else {
                let i2 = if l[0].0 == kind {
                    i - 1
                } else {
                    i
                };
                assert(addresses_of_kind(l, kind)[i] == addresses_of_kind(t, kind)[i2]);
                let j = choose|j: int|
                    #![trigger t[j]]
                    0 <= j < t.len() && t[j].0 == kind && t[j].1 == addresses_of_kind(t, kind)[i2];
                assert(l[j + 1] == t[j]);
            }
        }
    }
}

/// Clearing, with every hardware clear succeeding, the addresses of all records of one type
/// removes exactly the records of that type and keeps the others in their order, provided no
/// record of another type shares an address with one of that type (clearing goes by address,
/// earliest record first).
pub proof fn lemma_clear_breakpoints_removes_kind(l: Ledger, kind: BreakpointKind)
    requires
        addresses_exclusive_to(l, kind),
    ensures
        clear_each(
            l,
            addresses_of_kind(l, kind),
            all_cleared(addresses_of_kind(l, kind).len()),
        ) == without_kind(l, kind),
    decreases l.len(),
{
    if l.len() > 0 {
        let x = l[0];
        let t = l.drop_first();
        let at = addresses_of_kind(t, kind);
        assert(addresses_exclusive_to(t, kind)) by {
            assert forall|i: int, j: int|
                0 <= i < t.len() && 0 <= j < t.len() && t[i].0 == kind && t[j].1 == t[i].1 implies t[j].0
                == kind by {
                assert(t[i] == l[i + 1] && t[j] == l[j + 1]);
            }
        }
        lemma_clear_breakpoints_removes_kind(t, kind);
        assert(seq![x] + t =~= l);
        if x.0 == kind {
            let a = addresses_of_kind(l, kind);
            assert(a.drop_first() =~= at);
            assert(all_cleared(a.len()).drop_first() =~= all_cleared(at.len()));
            assert(remove_first_at(l, a[0]) == t);
        } else {
            lemma_addresses_of_kind_come_from(t, kind);
            assert forall|i: int| 0 <= i < at.len() implies at[i] != x.1 by {
                let j = choose|j: int| 0 <= j < t.len() && t[j].0 == kind && t[j].1 == at[i];
                assert(l[j + 1] == t[j]);
            }
            lemma_clear_each_behind(x, t, at, all_cleared(at.len()));
        }
    }
}

} // verus!
