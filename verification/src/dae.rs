//! The differential-algebraic equation system of one device module: its
//! unknowns, the sparse Jacobian with a resistive and a reactive channel,
//! and the noise sources.

use vstd::prelude::*;
use crate::ir::{f_zero, FuncCursor, Function, Value};
use crate::util::{accumulated, cursor_after, strip_optbarrier_if_const, strip_optbarrier_if_const_spec};

verus! {

/// The index of an unknown in the system's ordered set of unknowns.
#[derive(Clone, Copy, Debug, PartialEq, Eq, Structural)]
pub struct SimUnknown(pub u32);

/// The index of an entry in the system's Jacobian.
#[derive(Clone, Copy, Debug, PartialEq, Eq, Structural)]
pub struct MatrixEntryId(pub u32);

/// A current that the module reads: through a named branch, between two
/// nodes (the second is ground where `has_lo` is false), or into a port.
#[derive(Clone, Copy, Debug, PartialEq, Eq, Structural)]
pub enum CurrentKind {
    Branch(u32),
    Unnamed { hi: u32, lo: u32, has_lo: bool },
    Port(u32),
}

/// One scalar row of the system.
#[derive(Clone, Copy, Debug, PartialEq, Eq, Structural)]
pub enum SimUnknownKind {
    KirchoffLaw(u32),
    Current(CurrentKind),
    Implicit(u32),
}

/// The contributions to the equation of one unknown. A channel without a
/// contribution holds zero.
#[derive(Clone, Copy, Debug, PartialEq, Eq, Structural)]
pub struct Residual {
    pub resist: Value,
    pub react: Value,
    pub resist_lim_rhs: Value,
    pub react_lim_rhs: Value,
}

/// One entry of the sparse Jacobian: the derivative of the equation of
/// `row` by the unknown `col`. A channel that is absent holds zero.
#[derive(Clone, Copy, Debug, PartialEq, Eq, Structural)]
pub struct MatrixEntry {
    pub row: SimUnknown,
    pub col: SimUnknown,
    pub resist: Value,
    pub react: Value,
}

/// The shape of a noise source's power spectrum.
#[derive(Clone, Copy, Debug, PartialEq, Eq, Structural)]
pub enum NoiseSourceKind {
    WhiteNoise { pwr: Value },
    FlickerNoise { pwr: Value, exp: Value },
    NoiseTable { log: bool },
}

/// One noise source between `hi` and `lo` (ground where `has_lo` is false).
#[derive(Clone, Copy, Debug, PartialEq, Eq, Structural)]
pub struct NoiseSource {
    pub name: u32,
    pub kind: NoiseSourceKind,
    pub hi: SimUnknown,
    pub lo: SimUnknown,
    pub has_lo: bool,
    pub factor: Value,
}

impl MatrixEntry {
    /// Whether the entry has a value in the given channel.
    pub open spec fn spec_present(self, reactive: bool) -> bool {
        if reactive {
            self.react != f_zero()
        } else {
            self.resist != f_zero()
        }
    }

    #[verifier::when_used_as_spec(spec_present)]
    pub fn present(self, reactive: bool) -> (r: bool)
        ensures
            r == self.spec_present(reactive),
    {
        if reactive {
            self.react.0 != 0
        } else {
            self.resist.0 != 0
        }
    }

    /// The value of the entry in the given channel.
    pub open spec fn spec_channel(self, reactive: bool) -> Value {
        if reactive {
            self.react
        } else {
            self.resist
        }
    }

    #[verifier::when_used_as_spec(spec_channel)]
    pub fn channel(self, reactive: bool) -> (r: Value)
        ensures
            r == self.spec_channel(reactive),
    {
        if reactive {
            self.react
        } else {
            self.resist
        }
    }

    /// The entry with one channel replaced.
    pub open spec fn with_channel(self, reactive: bool, val: Value) -> MatrixEntry {
        if reactive {
            MatrixEntry { row: self.row, col: self.col, resist: self.resist, react: val }
        } else {
            MatrixEntry { row: self.row, col: self.col, resist: val, react: self.react }
        }
    }

    /// Whether both channels are absent.
    pub open spec fn is_empty(self) -> bool {
        !self.spec_present(false) && !self.spec_present(true)
    }

    /// The entry with each channel replaced by the constant behind its
    /// optimization barriers, where a constant stands there.
    pub open spec fn stripped(self, func: &Function) -> MatrixEntry {
        MatrixEntry {
            row: self.row,
            col: self.col,
            resist: strip_optbarrier_if_const_spec(func, self.resist),
            react: strip_optbarrier_if_const_spec(func, self.react),
        }
    }
}

impl Residual {
    /// The contribution to the residual in the given channel.
    pub open spec fn spec_contribution(self, reactive: bool) -> Value {
        if reactive {
            self.react
        } else {
            self.resist
        }
    }

    #[verifier::when_used_as_spec(spec_contribution)]
    pub fn contribution(self, reactive: bool) -> (r: Value)
        ensures
            r == self.spec_contribution(reactive),
    {
        if reactive {
            self.react
        } else {
            self.resist
        }
    }

    /// The residual with the contribution of one channel replaced.
    pub open spec fn with_contribution(self, reactive: bool, val: Value) -> Residual {
        if reactive {
            Residual {
                resist: self.resist,
                react: val,
                resist_lim_rhs: self.resist_lim_rhs,
                react_lim_rhs: self.react_lim_rhs,
            }
        } else {
            Residual {
                resist: val,
                react: self.react,
                resist_lim_rhs: self.resist_lim_rhs,
                react_lim_rhs: self.react_lim_rhs,
            }
        }
    }

    /// The limiting correction in the given channel.
    pub open spec fn spec_lim_rhs(self, reactive: bool) -> Value {
        if reactive {
            self.react_lim_rhs
        } else {
            self.resist_lim_rhs
        }
    }

    #[verifier::when_used_as_spec(spec_lim_rhs)]
    pub fn lim_rhs(self, reactive: bool) -> (r: Value)
        ensures
            r == self.spec_lim_rhs(reactive),
    {
        if reactive {
            self.react_lim_rhs
        } else {
            self.resist_lim_rhs
        }
    }
}

/// Two unknowns that may be merged into one, or one unknown that may be
/// merged into ground where `has_lo` is false.
#[derive(Clone, Copy, Debug, PartialEq, Eq, Structural)]
pub struct CollapsePair {
    pub hi: SimUnknown,
    pub lo: SimUnknown,
    pub has_lo: bool,
}

/// The pairs of unknowns that a simulator may collapse. They are hints:
/// recording one changes no unknown and no identity.
pub struct NodeCollapse {
    pub pairs: Vec<CollapsePair>,
}

impl NodeCollapse {
    /// Every pair connects unknowns among the first `n`, and no pair is
    /// recorded twice.
    pub open spec fn wf(&self, n: int) -> bool {
        &&& self.pairs@.len() <= u32::MAX
        &&& self.pairs@.no_duplicates()
        &&& forall|k: int|
            0 <= k < self.pairs@.len() ==> (#[trigger] self.pairs@[k]).hi.0 < n && (self.pairs@[k].has_lo
                ==> self.pairs@[k].lo.0 < n)
    }

    /// Checks that the pairs are well formed for a system of `n` unknowns.
    pub fn validate(&self, n: usize) -> (ok: bool)
        ensures
            ok == self.wf(n as int),
    {
        if self.pairs.len() > u32::MAX as usize {
            return false;
        }
        let mut j: usize = 0;
        while j < self.pairs.len()
            invariant
                j <= self.pairs@.len(),
                forall|a: int, b: int| 0 <= a < b < j ==> self.pairs@[a] != self.pairs@[b],
                forall|k: int|
                    0 <= k < j ==> (#[trigger] self.pairs@[k]).hi.0 < n && (self.pairs@[k].has_lo
                        ==> self.pairs@[k].lo.0 < n),
            decreases self.pairs@.len() - j,
        {
            let p = self.pairs[j];
            if p.hi.0 as usize >= n || (p.has_lo && p.lo.0 as usize >= n) {
                return false;
            }
            let mut i: usize = 0;
            while i < j
                invariant
                    i <= j < self.pairs@.len(),
                    p == self.pairs@[j as int],
                    forall|a: int| 0 <= a < i ==> self.pairs@[a] != p,
                decreases j - i,
            {
                if self.pairs[i] == p {
                    return false;
                }
                i = i + 1;
            }
            j = j + 1;
        }
        true
    }

    pub fn new() -> (r: NodeCollapse)
        ensures
            r.pairs@.len() == 0,
            forall|n: int| r.wf(n),
    {
        NodeCollapse { pairs: Vec::new() }
    }

    /// Records a pair unless it is recorded, and says whether the pair is
    /// recorded afterwards; it is not where it would be one pair too many.
    pub fn record(&mut self, dae: &DaeSystem, pair: CollapsePair) -> (recorded: bool)
        requires
            old(self).wf(dae.unknowns@.len() as int),
            pair.hi.0 < dae.unknowns@.len(),
            pair.has_lo ==> pair.lo.0 < dae.unknowns@.len(),
        ensures
            final(self).wf(dae.unknowns@.len() as int),
            final(self).pairs@ == if old(self).pairs@.contains(pair) || old(self).pairs@.len()
                >= u32::MAX {
                old(self).pairs@
            } else {
                old(self).pairs@.push(pair)
            },
            recorded == final(self).pairs@.contains(pair),
    {
        let mut i: usize = 0;
        while i < self.pairs.len()
            invariant
                i <= self.pairs@.len(),
                *self == *old(self),
                self.wf(dae.unknowns@.len() as int),
                forall|k: int| 0 <= k < i ==> self.pairs@[k] != pair,
            decreases self.pairs@.len() - i,
        {
            if self.pairs[i] == pair {
                return true;
            }
            i = i + 1;
        }
        if self.pairs.len() >= u32::MAX as usize {
            return false;
        }
        self.pairs.push(pair);
        assert(self.pairs@[self.pairs@.len() - 1] == pair);
        true
    }
}

/// The number of entries that have a value in the given channel.
pub open spec fn count_present(entries: Seq<MatrixEntry>, reactive: bool) -> nat
    decreases entries.len(),
{
    if entries.len() == 0 {
        0
    } else {
        count_present(entries.drop_last(), reactive) + if entries.last().spec_present(reactive) {
            1nat
        } else {
            0nat
        }
    }
}

/// The entries that keep at least one channel once constants are seen
/// through their optimization barriers, in their old order.
pub open spec fn sparsified(entries: Seq<MatrixEntry>, func: &Function) -> Seq<MatrixEntry>
    decreases entries.len(),
{
    if entries.len() == 0 {
        Seq::empty()
    } else {
        let rest = sparsified(entries.drop_last(), func);
        let e = entries.last().stripped(func);
        if e.is_empty() {
            rest
        } else {
            rest.push(e)
        }
    }
}

/// No channel has more values than there are entries.
pub proof fn lemma_count_present_bound(entries: Seq<MatrixEntry>, reactive: bool)
    ensures
        count_present(entries, reactive) <= entries.len(),
    decreases entries.len(),
{
    if entries.len() > 0 {
        lemma_count_present_bound(entries.drop_last(), reactive);
    }
}

/// Jacobian soundness. After sparsification every entry has a value in
/// at least one channel, and a pair of row and column has an entry
/// exactly if some derivative of that row by that column is not zero in
/// both channels: where the pair is absent, the row does not depend on the
/// column.
pub proof fn lemma_sparsified_sound(entries: Seq<MatrixEntry>, func: &Function, row: SimUnknown, col: SimUnknown)
    ensures
        forall|k: int|
            0 <= k < sparsified(entries, func).len() ==> !(#[trigger] sparsified(entries, func)[k]).is_empty(),
        (exists|k: int|
            0 <= k < sparsified(entries, func).len() && (#[trigger] sparsified(entries, func)[k]).row
                == row && sparsified(entries, func)[k].col == col) <==> (exists|i: int|
            0 <= i < entries.len() && (#[trigger] entries[i]).row == row && entries[i].col == col
                && !entries[i].stripped(func).is_empty()),
    decreases entries.len(),
{
    let out = sparsified(entries, func);
    if entries.len() > 0 {
        let front = entries.drop_last();
        let rest = sparsified(front, func);
        let e = entries.last().stripped(func);
        lemma_sparsified_sound(front, func, row, col);
        assert forall|k: int| 0 <= k < out.len() implies !(#[trigger] out[k]).is_empty() by {
            if k < rest.len() {
                assert(out[k] == rest[k]);
            }
        }
        if exists|k: int| 0 <= k < out.len() && (#[trigger] out[k]).row == row && out[k].col == col {
            let k = choose|k: int| 0 <= k < out.len() && (#[trigger] out[k]).row == row && out[k].col == col;
            if k < rest.len() {
                assert(out[k] == rest[k]);
                let i = choose|i: int|
                    0 <= i < front.len() && (#[trigger] front[i]).row == row && front[i].col == col
                        && !front[i].stripped(func).is_empty();
                assert(entries[i] == front[i]);
            } else {
                assert(out[k] == e);
                assert(entries[entries.len() - 1].row == row);
            }
        }
        if exists|i: int|
            0 <= i < entries.len() && (#[trigger] entries[i]).row == row && entries[i].col == col
                && !entries[i].stripped(func).is_empty() {
            let i = choose|i: int|
                0 <= i < entries.len() && (#[trigger] entries[i]).row == row && entries[i].col == col
                    && !entries[i].stripped(func).is_empty();
            if i < front.len() {
                assert(front[i] == entries[i]);
                let k = choose|k: int|
                    0 <= k < rest.len() && (#[trigger] rest[k]).row == row && rest[k].col == col;
                assert(out[k] == rest[k]);
            } else {
                assert(out[rest.len() as int] == e);
            }
        }
    }
}

/// Whether one of the noise sources is given by a table.
pub open spec fn has_table(sources: Seq<NoiseSource>) -> bool {
    exists|i: int| 0 <= i < sources.len() && (#[trigger] sources[i]).kind is NoiseTable
}

/// A node of the module's topology.
#[derive(Clone, Copy, Debug, PartialEq, Eq, Structural)]
pub struct TopologyNode {
    pub node: u32,
    pub is_ground: bool,
}

/// What the topology of a module says of its unknowns: its nodes, the
/// currents that its equations read, and the number of its implicit
/// equations.
pub struct Topology {
    pub nodes: Vec<TopologyNode>,
    pub currents: Vec<CurrentKind>,
    pub implicit_equations: u32,
}

/// The residual without any contribution.
pub open spec fn zero_residual() -> Residual {
    Residual { resist: f_zero(), react: f_zero(), resist_lim_rhs: f_zero(), react_lim_rhs: f_zero() }
}

/// The unknowns of the nodes that are not ground, in the order of the
/// nodes.
pub open spec fn node_kinds(nodes: Seq<TopologyNode>) -> Seq<SimUnknownKind>
    decreases nodes.len(),
{
    if nodes.len() == 0 {
        Seq::empty()
    } else if nodes.last().is_ground {
        node_kinds(nodes.drop_last())
    } else {
        node_kinds(nodes.drop_last()).push(SimUnknownKind::KirchoffLaw(nodes.last().node))
    }
}

/// The unknowns that a topology asks for: one for each node that is not
/// ground, one for each current, one for each implicit equation.
pub open spec fn topology_kinds(t: &Topology) -> Seq<SimUnknownKind> {
    node_kinds(t.nodes@) + Seq::new(
        t.currents@.len(),
        |i: int| SimUnknownKind::Current(t.currents@[i]),
    ) + Seq::new(t.implicit_equations as nat, |i: int| SimUnknownKind::Implicit(i as u32))
}

/// The unknowns after the kinds have been entered one after another, each
/// behind the others unless it is there already.
pub open spec fn with_unknowns(unknowns: Seq<SimUnknownKind>, kinds: Seq<SimUnknownKind>) -> Seq<
    SimUnknownKind,
>
    decreases kinds.len(),
{
    if kinds.len() == 0 {
        unknowns
    } else {
        let rest = with_unknowns(unknowns, kinds.drop_last());
        if rest.contains(kinds.last()) {
            rest
        } else {
            rest.push(kinds.last())
        }
    }
}

/// Entering more kinds never makes the unknowns fewer.
pub proof fn lemma_with_unknowns_grows(unknowns: Seq<SimUnknownKind>, kinds: Seq<SimUnknownKind>, n: int)
    requires
        0 <= n <= kinds.len(),
    ensures
        with_unknowns(unknowns, kinds.take(n)).len() <= with_unknowns(unknowns, kinds).len(),
    decreases kinds.len() - n,
{
    if n < kinds.len() {
        assert(kinds.drop_last().take(n) =~= kinds.take(n));
        lemma_with_unknowns_grows(unknowns, kinds.drop_last(), n);
    } else {
        assert(kinds.take(n) =~= kinds);
    }
}

impl Topology {
    /// The unknowns that the topology asks for, in their order.
    pub fn unknown_kinds(&self) -> (kinds: Vec<SimUnknownKind>)
        ensures
            kinds@ == topology_kinds(self),
    {
        let mut kinds: Vec<SimUnknownKind> = Vec::new();
        let mut i: usize = 0;
        proof {
            assert(self.nodes@.take(0) =~= Seq::<TopologyNode>::empty());
        }
        while i < self.nodes.len()
            invariant
                i <= self.nodes@.len(),
                kinds@ == node_kinds(self.nodes@.take(i as int)),
            decreases self.nodes@.len() - i,
        {
            let node = self.nodes[i];
            proof {
                assert(self.nodes@.take(i + 1).drop_last() =~= self.nodes@.take(i as int));
                assert(self.nodes@.take(i + 1).last() == node);
            }
            if !node.is_ground {
                kinds.push(SimUnknownKind::KirchoffLaw(node.node));
            }
            i = i + 1;
        }
        proof {
            assert(self.nodes@.take(i as int) =~= self.nodes@);
        }
        let ghost head = kinds@;
        let mut i: usize = 0;
        while i < self.currents.len()
            invariant
                i <= self.currents@.len(),
                kinds@ == head + Seq::new(i as nat, |k: int| SimUnknownKind::Current(self.currents@[k])),
            decreases self.currents@.len() - i,
        {
            kinds.push(SimUnknownKind::Current(self.currents[i]));
            i = i + 1;
            assert(kinds@ =~= head + Seq::new(
                i as nat,
                |k: int| SimUnknownKind::Current(self.currents@[k]),
            ));
        }
        let ghost head = kinds@;
        let mut i: u32 = 0;
        while i < self.implicit_equations
            invariant
                i <= self.implicit_equations,
                kinds@ == head + Seq::new(i as nat, |k: int| SimUnknownKind::Implicit(k as u32)),
            decreases self.implicit_equations - i,
        {
            kinds.push(SimUnknownKind::Implicit(i));
            i = i + 1;
            assert(kinds@ =~= head + Seq::new(i as nat, |k: int| SimUnknownKind::Implicit(k as u32)));
        }
        kinds
    }
}

/// No two entries share row and column.
pub open spec fn keyed(entries: Seq<MatrixEntry>) -> bool {
    forall|i: int, j: int|
        0 <= i < j < entries.len() ==> !((#[trigger] entries[i]).row == (#[trigger] entries[j]).row
            && entries[i].col == entries[j].col)
}

/// Every entry that sparsification keeps has the row and column of an
/// entry that it was given, so it keeps entries keyed.
pub proof fn lemma_sparsified_keyed(entries: Seq<MatrixEntry>, func: &Function)
    ensures
        forall|k: int|
            0 <= k < sparsified(entries, func).len() ==> exists|i: int|
                0 <= i < entries.len() && entries[i].row == (#[trigger] sparsified(entries, func)[k]).row
                    && entries[i].col == sparsified(entries, func)[k].col,
        keyed(entries) ==> keyed(sparsified(entries, func)),
    decreases entries.len(),
{
    let out = sparsified(entries, func);
    if entries.len() > 0 {
        let front = entries.drop_last();
        let rest = sparsified(front, func);
        lemma_sparsified_keyed(front, func);
        assert forall|k: int| 0 <= k < out.len() implies exists|i: int|
            0 <= i < entries.len() && entries[i].row == (#[trigger] out[k]).row && entries[i].col
                == out[k].col by {
            if k < rest.len() {
                assert(out[k] == rest[k]);
                let i = choose|i: int|
                    0 <= i < front.len() && front[i].row == rest[k].row && front[i].col == rest[k].col;
                assert(entries[i] == front[i]);
            } else {
                assert(entries[entries.len() - 1].row == out[k].row);
            }
        }
        if keyed(entries) {
            assert(keyed(front)) by {
                assert forall|i: int, j: int| 0 <= i < j < front.len() implies !((#[trigger] front[i]).row
                    == (#[trigger] front[j]).row && front[i].col == front[j].col) by {
                    assert(front[i] == entries[i]);
                    assert(front[j] == entries[j]);
                }
            }
            assert forall|a: int, b: int| 0 <= a < b < out.len() implies !((#[trigger] out[a]).row == (
            #[trigger] out[b]).row && out[a].col == out[b].col) by {
                assert(out[a] == rest[a]);
                if b < rest.len() {
                    assert(out[b] == rest[b]);
                } else {
                    let i = choose|i: int|
                        0 <= i < front.len() && front[i].row == rest[a].row && front[i].col
                            == rest[a].col;
                    assert(entries[i] == front[i]);
                    assert(entries[entries.len() - 1].row == out[b].row);
                }
            }
        }
    }
}

/// The equation system of one module.
pub struct DaeSystem {
    pub unknowns: Vec<SimUnknownKind>,
    pub residual: Vec<Residual>,
    pub jacobian: Vec<MatrixEntry>,
    pub noise_sources: Vec<NoiseSource>,
    pub num_resistive: u32,
    pub num_reactive: u32,
}

impl DaeSystem {
    /// The unknowns are distinct and each has a residual; every Jacobian
    /// entry lies inside the system and no two entries share row and
    /// column; every noise source connects unknowns of the system; and all
    /// counts fit in 32 bits.
    pub open spec fn wf(&self) -> bool {
        &&& self.unknowns@.len() <= u32::MAX
        &&& self.residual@.len() == self.unknowns@.len()
        &&& self.jacobian@.len() <= u32::MAX
        &&& self.noise_sources@.len() <= u32::MAX
        &&& forall|i: int, j: int|
            0 <= i < j < self.unknowns@.len() ==> self.unknowns@[i] != self.unknowns@[j]
        &&& forall|k: int|
            0 <= k < self.jacobian@.len() ==> (#[trigger] self.jacobian@[k]).row.0
                < self.unknowns@.len() && self.jacobian@[k].col.0 < self.unknowns@.len()
        &&& keyed(self.jacobian@)
        &&& forall|k: int|
            0 <= k < self.noise_sources@.len() ==> (#[trigger] self.noise_sources@[k]).hi.0
                < self.unknowns@.len() && (self.noise_sources@[k].has_lo
                ==> self.noise_sources@[k].lo.0 < self.unknowns@.len())
    }

    /// The state after sparsification: no entry has both channels absent,
    /// and the two counts are those of the entries.
    pub open spec fn sparse(&self) -> bool {
        &&& self.wf()
        &&& forall|k: int| 0 <= k < self.jacobian@.len() ==> !(#[trigger] self.jacobian@[k]).is_empty()
        &&& self.num_resistive == count_present(self.jacobian@, false)
        &&& self.num_reactive == count_present(self.jacobian@, true)
    }

    /// Checks that the system is well formed.
    pub fn validate(&self) -> (ok: bool)
        ensures
            ok == self.wf(),
    {
        let n = self.unknowns.len();
        if n > u32::MAX as usize || self.residual.len() != n || self.jacobian.len() > u32::MAX as usize
            || self.noise_sources.len() > u32::MAX as usize {
            return false;
        }
        let mut j: usize = 0;
        while j < n
            invariant
                j <= n,
                n == self.unknowns@.len(),
                forall|a: int, b: int| 0 <= a < b < j ==> self.unknowns@[a] != self.unknowns@[b],
            decreases n - j,
        {
            let u = self.unknowns[j];
            let mut i: usize = 0;
            while i < j
                invariant
                    i <= j < n,
                    n == self.unknowns@.len(),
                    u == self.unknowns@[j as int],
                    forall|a: int| 0 <= a < i ==> self.unknowns@[a] != u,
                decreases j - i,
            {
                if self.unknowns[i] == u {
                    return false;
                }
                i = i + 1;
            }
            j = j + 1;
        }
        let m = self.jacobian.len();
        let mut j: usize = 0;
        while j < m
            invariant
                j <= m,
                m == self.jacobian@.len(),
                n == self.unknowns@.len(),
                forall|k: int|
                    0 <= k < j ==> (#[trigger] self.jacobian@[k]).row.0 < n && self.jacobian@[k].col.0 < n,
                forall|a: int, b: int|
                    0 <= a < b < j ==> !((#[trigger] self.jacobian@[a]).row == (
                    #[trigger] self.jacobian@[b]).row && self.jacobian@[a].col == self.jacobian@[b].col),
            decreases m - j,
        {
            let e = self.jacobian[j];
            if e.row.0 as usize >= n || e.col.0 as usize >= n {
                return false;
            }
            let mut i: usize = 0;
            while i < j
                invariant
                    i <= j < m,
                    m == self.jacobian@.len(),
                    e == self.jacobian@[j as int],
                    forall|a: int|
                        0 <= a < i ==> !((#[trigger] self.jacobian@[a]).row == e.row
                            && self.jacobian@[a].col == e.col),
                decreases j - i,
            {
                let f = self.jacobian[i];
                if f.row == e.row && f.col == e.col {
                    assert(!keyed(self.jacobian@));
                    return false;
                }
                i = i + 1;
            }
            j = j + 1;
        }
        let mut k: usize = 0;
        while k < self.noise_sources.len()
            invariant
                k <= self.noise_sources@.len(),
                n == self.unknowns@.len(),
                forall|j: int|
                    0 <= j < k ==> (#[trigger] self.noise_sources@[j]).hi.0 < n && (
                    self.noise_sources@[j].has_lo ==> self.noise_sources@[j].lo.0 < n),
            decreases self.noise_sources@.len() - k,
        {
            let src = self.noise_sources[k];
            if src.hi.0 as usize >= n || (src.has_lo && src.lo.0 as usize >= n) {
                return false;
            }
            k = k + 1;
        }
        true
    }

    /// Checks that the system is well formed and sparse.
    pub fn validate_sparse(&self) -> (ok: bool)
        ensures
            ok == self.sparse(),
    {
        if !self.validate() {
            return false;
        }
        let mut num_resistive: u32 = 0;
        let mut num_reactive: u32 = 0;
        let n = self.jacobian.len();
        let mut k: usize = 0;
        proof {
            assert(self.jacobian@.take(0) =~= Seq::<MatrixEntry>::empty());
        }
        while k < n
            invariant
                k <= n,
                n == self.jacobian@.len(),
                n <= u32::MAX,
                forall|j: int| 0 <= j < k ==> !(#[trigger] self.jacobian@[j]).is_empty(),
                num_resistive == count_present(self.jacobian@.take(k as int), false),
                num_reactive == count_present(self.jacobian@.take(k as int), true),
                num_resistive <= k,
                num_reactive <= k,
            decreases n - k,
        {
            let e = self.jacobian[k];
            proof {
                assert(self.jacobian@.take(k + 1).drop_last() =~= self.jacobian@.take(k as int));
                assert(self.jacobian@.take(k + 1).last() == e);
            }
            if !e.present(false) && !e.present(true) {
                return false;
            }
            if e.present(false) {
                num_resistive = num_resistive + 1;
            }
            if e.present(true) {
                num_reactive = num_reactive + 1;
            }
            k = k + 1;
        }
        proof {
            assert(self.jacobian@.take(n as int) =~= self.jacobian@);
        }
        self.num_resistive == num_resistive && self.num_reactive == num_reactive
    }

    /// An empty system: no unknown, no entry, no noise source.
    pub fn new() -> (dae: DaeSystem)
        ensures
            dae.sparse(),
            dae.unknowns@.len() == 0,
            dae.jacobian@.len() == 0,
            dae.noise_sources@.len() == 0,
    {
        DaeSystem {
            unknowns: Vec::new(),
            residual: Vec::new(),
            jacobian: Vec::new(),
            noise_sources: Vec::new(),
            num_resistive: 0,
            num_reactive: 0,
        }
    }

    /// Whether every value that the residuals and the Jacobian hold is a
    /// value of the function.
    pub open spec fn defined_in(&self, func: &Function) -> bool {
        &&& forall|k: int|
            0 <= k < self.residual@.len() ==> (#[trigger] self.residual@[k]).resist.0 < func.defs@.len()
                && self.residual@[k].react.0 < func.defs@.len()
        &&& forall|k: int|
            0 <= k < self.jacobian@.len() ==> (#[trigger] self.jacobian@[k]).resist.0 < func.defs@.len()
                && self.jacobian@[k].react.0 < func.defs@.len()
    }

    /// The place of an unknown in the system, if it is one.
    pub fn find_unknown(&self, kind: SimUnknownKind) -> (r: Option<SimUnknown>)
        requires
            self.wf(),
        ensures
            r.is_some() == self.unknowns@.contains(kind),
            r matches Some(u) ==> u.0 < self.unknowns@.len() && self.unknowns@[u.0 as int] == kind,
    {
        let mut i: usize = 0;
        while i < self.unknowns.len()
            invariant
                i <= self.unknowns@.len() <= u32::MAX,
                forall|k: int| 0 <= k < i ==> self.unknowns@[k] != kind,
            decreases self.unknowns@.len() - i,
        {
            if self.unknowns[i] == kind {
                return Some(SimUnknown(i as u32));
            }
            i = i + 1;
        }
        None
    }

    /// The unknown of the given kind. It is added behind the others, with
    /// a residual of zero, unless the system has it. Nothing is returned,
    /// and nothing changes, where it would be one unknown too many.
    pub fn ensure_unknown(&mut self, kind: SimUnknownKind) -> (r: Option<SimUnknown>)
        requires
            old(self).wf(),
        ensures
            final(self).wf(),
            final(self).jacobian@ == old(self).jacobian@,
            final(self).noise_sources@ == old(self).noise_sources@,
            final(self).num_resistive == old(self).num_resistive,
            final(self).num_reactive == old(self).num_reactive,
            old(self).unknowns@.contains(kind) ==> final(self).unknowns@ == old(self).unknowns@ && final(self).residual@ == old(self).residual@ && r.is_some(),
            !old(self).unknowns@.contains(kind) && old(self).unknowns@.len() < u32::MAX ==> final(self).unknowns@ == old(self).unknowns@.push(kind) && final(self).residual@ == old(self).residual@.push(
                Residual {
                    resist: f_zero(),
                    react: f_zero(),
                    resist_lim_rhs: f_zero(),
                    react_lim_rhs: f_zero(),
                },
            ) && r == Some(SimUnknown(old(self).unknowns@.len() as u32)),
            !old(self).unknowns@.contains(kind) && old(self).unknowns@.len() >= u32::MAX ==> r.is_none()
                && final(self).unknowns@ == old(self).unknowns@ && final(self).residual@ == old(self).residual@,
            r matches Some(u) ==> u.0 < final(self).unknowns@.len() && final(self).unknowns@[u.0 as int]
                == kind,
    {
        match self.find_unknown(kind) {
            Some(u) => Some(u),
            None => {
                let n = self.unknowns.len();
                if n >= u32::MAX as usize {
                    return None;
                }
                self.unknowns.push(kind);
                self.residual.push(
                    Residual {
                        resist: Value(0),
                        react: Value(0),
                        resist_lim_rhs: Value(0),
                        react_lim_rhs: Value(0),
                    },
                );
                Some(SimUnknown(n as u32))
            },
        }
    }

    /// Enters the unknowns of the given kinds, one after another. Says
    /// whether all found room; where one did not, the system holds those
    /// before it.
    pub fn ensure_unknowns(&mut self, kinds: &Vec<SimUnknownKind>) -> (ok: bool)
        requires
            old(self).wf(),
        ensures
            final(self).wf(),
            final(self).jacobian@ == old(self).jacobian@,
            final(self).noise_sources@ == old(self).noise_sources@,
            final(self).num_resistive == old(self).num_resistive,
            final(self).num_reactive == old(self).num_reactive,
            ok <==> with_unknowns(old(self).unknowns@, kinds@).len() <= u32::MAX,
            ok ==> final(self).unknowns@ == with_unknowns(old(self).unknowns@, kinds@),
            !ok ==> exists|n: int|
                0 <= n < kinds@.len() && final(self).unknowns@ == #[trigger] with_unknowns(
                    old(self).unknowns@,
                    kinds@.take(n),
                ),
            final(self).residual@ == old(self).residual@ + Seq::new(
                (final(self).unknowns@.len() - old(self).unknowns@.len()) as nat,
                |i: int| zero_residual(),
            ),
            old(self).unknowns@.len() <= final(self).unknowns@.len(),
    {
        let mut i: usize = 0;
        proof {
            assert(kinds@.take(0) =~= Seq::<SimUnknownKind>::empty());
            assert(self.residual@ =~= old(self).residual@ + Seq::new(0, |i: int| zero_residual()));
        }
        while i < kinds.len()
            invariant
                i <= kinds@.len(),
                self.wf(),
                self.jacobian@ == old(self).jacobian@,
                self.noise_sources@ == old(self).noise_sources@,
                self.num_resistive == old(self).num_resistive,
                self.num_reactive == old(self).num_reactive,
                self.unknowns@ == with_unknowns(old(self).unknowns@, kinds@.take(i as int)),
                old(self).unknowns@.len() <= self.unknowns@.len(),
                self.residual@ == old(self).residual@ + Seq::new(
                    (self.unknowns@.len() - old(self).unknowns@.len()) as nat,
                    |i: int| zero_residual(),
                ),
            decreases kinds@.len() - i,
        {
            proof {
                assert(kinds@.take(i + 1).drop_last() =~= kinds@.take(i as int));
                assert(kinds@.take(i + 1).last() == kinds@[i as int]);
            }
            let ghost before = self.residual@;
            let r = self.ensure_unknown(kinds[i]);
            if r.is_none() {
                proof {
                    lemma_with_unknowns_grows(old(self).unknowns@, kinds@, i + 1);
                }
                return false;
            }
            proof {
                assert(self.residual@ =~= old(self).residual@ + Seq::new(
                    (self.unknowns@.len() - old(self).unknowns@.len()) as nat,
                    |i: int| zero_residual(),
                ));
            }
            i = i + 1;
        }
        proof {
            assert(kinds@.take(i as int) =~= kinds@);
        }
        true
    }

    /// The system of a topology before any equation is entered: the
    /// unknowns that the topology asks for, each once, with residuals of
    /// zero. Nothing is returned for a topology with more unknowns than can
    /// be numbered.
    pub fn from_topology(topology: &Topology) -> (r: Option<DaeSystem>)
        ensures
            r.is_some() <==> with_unknowns(Seq::empty(), topology_kinds(topology)).len() <= u32::MAX,
            r matches Some(dae) ==> {
                &&& dae.sparse()
                &&& dae.unknowns@ == with_unknowns(Seq::empty(), topology_kinds(topology))
                &&& dae.residual@ == Seq::new(dae.unknowns@.len(), |i: int| zero_residual())
                &&& dae.jacobian@.len() == 0
                &&& dae.noise_sources@.len() == 0
            },
    {
        let mut dae = DaeSystem::new();
        let kinds = topology.unknown_kinds();
        assert(dae.residual@ =~= Seq::<Residual>::empty());
        assert(dae.unknowns@ =~= Seq::<SimUnknownKind>::empty());
        if dae.ensure_unknowns(&kinds) {
            assert(dae.residual@ =~= Seq::new(dae.unknowns@.len(), |i: int| zero_residual()));
            Some(dae)
        } else {
            None
        }
    }

    /// Whether one of the noise sources is given by a table.
    pub fn has_noise_table(&self) -> (r: bool)
        ensures
            r == has_table(self.noise_sources@),
    {
        let mut i: usize = 0;
        while i < self.noise_sources.len()
            invariant
                i <= self.noise_sources@.len(),
                forall|k: int| 0 <= k < i ==> !((#[trigger] self.noise_sources@[k]).kind is NoiseTable),
            decreases self.noise_sources@.len() - i,
        {
            if let NoiseSourceKind::NoiseTable { .. } = self.noise_sources[i].kind {
                return true;
            }
            i = i + 1;
        }
        false
    }

    /// Enters a noise source behind the others. Says whether it found
    /// room.
    pub fn add_noise_source(&mut self, source: NoiseSource) -> (ok: bool)
        requires
            old(self).wf(),
            source.hi.0 < old(self).unknowns@.len(),
            source.has_lo ==> source.lo.0 < old(self).unknowns@.len(),
        ensures
            final(self).wf(),
            ok <==> old(self).noise_sources@.len() < u32::MAX,
            final(self).noise_sources@ == if ok {
                old(self).noise_sources@.push(source)
            } else {
                old(self).noise_sources@
            },
            final(self).unknowns@ == old(self).unknowns@,
            final(self).residual@ == old(self).residual@,
            final(self).jacobian@ == old(self).jacobian@,
            final(self).num_resistive == old(self).num_resistive,
            final(self).num_reactive == old(self).num_reactive,
    {
        if self.noise_sources.len() >= u32::MAX as usize {
            return false;
        }
        self.noise_sources.push(source);
        true
    }

    /// The place of the entry with the given row and column, if there is
    /// one.
    pub fn find_entry(&self, row: SimUnknown, col: SimUnknown) -> (r: Option<MatrixEntryId>)
        requires
            self.wf(),
        ensures
            r.is_some() == (exists|k: int|
                0 <= k < self.jacobian@.len() && (#[trigger] self.jacobian@[k]).row == row
                    && self.jacobian@[k].col == col),
            r matches Some(id) ==> id.0 < self.jacobian@.len() && self.jacobian@[id.0 as int].row == row
                && self.jacobian@[id.0 as int].col == col,
    {
        let mut i: usize = 0;
        while i < self.jacobian.len()
            invariant
                i <= self.jacobian@.len() <= u32::MAX,
                forall|k: int|
                    0 <= k < i ==> !((#[trigger] self.jacobian@[k]).row == row && self.jacobian@[k].col
                        == col),
            decreases self.jacobian@.len() - i,
        {
            let e = self.jacobian[i];
            if e.row == row && e.col == col {
                return Some(MatrixEntryId(i as u32));
            }
            i = i + 1;
        }
        None
    }

    /// The entry with the given row and column. It is added behind the
    /// others, with both channels zero, unless the system has it. Nothing
    /// is returned, and nothing changes, where it would be one entry too
    /// many.
    pub fn ensure_entry(&mut self, row: SimUnknown, col: SimUnknown) -> (r: Option<MatrixEntryId>)
        requires
            old(self).wf(),
            row.0 < old(self).unknowns@.len(),
            col.0 < old(self).unknowns@.len(),
        ensures
            final(self).wf(),
            final(self).unknowns@ == old(self).unknowns@,
            final(self).residual@ == old(self).residual@,
            final(self).noise_sources@ == old(self).noise_sources@,
            final(self).num_resistive == old(self).num_resistive,
            final(self).num_reactive == old(self).num_reactive,
            r matches Some(id) ==> id.0 < final(self).jacobian@.len() && final(self).jacobian@[id.0 as int].row
                == row && final(self).jacobian@[id.0 as int].col == col,
            final(self).jacobian@ == if (exists|k: int|
                0 <= k < old(self).jacobian@.len() && (#[trigger] old(self).jacobian@[k]).row == row
                    && old(self).jacobian@[k].col == col) || old(self).jacobian@.len() >= u32::MAX {
                old(self).jacobian@
            } else {
                old(self).jacobian@.push(MatrixEntry { row, col, resist: f_zero(), react: f_zero() })
            },
            r.is_none() <==> !(exists|k: int|
                0 <= k < old(self).jacobian@.len() && (#[trigger] old(self).jacobian@[k]).row == row
                    && old(self).jacobian@[k].col == col) && old(self).jacobian@.len() >= u32::MAX,
    {
        match self.find_entry(row, col) {
            Some(id) => Some(id),
            None => {
                let n = self.jacobian.len();
                if n >= u32::MAX as usize {
                    return None;
                }
                self.jacobian.push(MatrixEntry { row, col, resist: Value(0), react: Value(0) });
                Some(MatrixEntryId(n as u32))
            },
        }
    }

    /// Accumulates a derivative, or its negation, onto one channel of a
    /// Jacobian entry, by the accumulation protocol.
    pub fn add_jacobian(
        &mut self,
        cursor: &mut FuncCursor,
        id: MatrixEntryId,
        val: Value,
        reactive: bool,
        negate: bool,
    )
        requires
            old(self).wf(),
            old(self).defined_in(&old(cursor).func),
            old(cursor).wf(),
            old(cursor).func.has_room(),
            id.0 < old(self).jacobian@.len(),
            val.0 < old(cursor).func.defs@.len(),
        ensures
            final(self).wf(),
            final(self).defined_in(&final(cursor).func),
            final(cursor).wf(),
            final(cursor).state() == cursor_after(
                *old(cursor),
                old(self).jacobian@[id.0 as int].spec_channel(reactive),
                val,
                negate,
            ),
            final(self).jacobian@ == old(self).jacobian@.update(
                id.0 as int,
                old(self).jacobian@[id.0 as int].with_channel(
                    reactive,
                    accumulated(
                        *old(cursor),
                        old(self).jacobian@[id.0 as int].spec_channel(reactive),
                        val,
                        negate,
                    ),
                ),
            ),
            final(self).unknowns@ == old(self).unknowns@,
            final(self).residual@ == old(self).residual@,
            final(self).noise_sources@ == old(self).noise_sources@,
    {
        let e = self.jacobian[id.0 as usize];
        let mut dst = e.channel(reactive);
        crate::util::add(cursor, &mut dst, val, negate);
        let updated = if reactive {
            MatrixEntry { row: e.row, col: e.col, resist: e.resist, react: dst }
        } else {
            MatrixEntry { row: e.row, col: e.col, resist: dst, react: e.react }
        };
        self.jacobian.set(id.0 as usize, updated);
        proof {
            assert(keyed(self.jacobian@)) by {
                assert forall|i: int, j: int| 0 <= i < j < self.jacobian@.len() implies !((
                #[trigger] self.jacobian@[i]).row == (#[trigger] self.jacobian@[j]).row
                    && self.jacobian@[i].col == self.jacobian@[j].col) by {
                    assert(self.jacobian@[i].row == old(self).jacobian@[i].row);
                    assert(self.jacobian@[j].row == old(self).jacobian@[j].row);
                    assert(self.jacobian@[i].col == old(self).jacobian@[i].col);
                    assert(self.jacobian@[j].col == old(self).jacobian@[j].col);
                }
            }
        }
    }

    /// Accumulates a contribution, or its negation, onto one channel of
    /// the residual of an unknown, by the accumulation protocol.
    pub fn add_residual(
        &mut self,
        cursor: &mut FuncCursor,
        node: SimUnknown,
        val: Value,
        reactive: bool,
        negate: bool,
    )
        requires
            old(self).wf(),
            old(self).defined_in(&old(cursor).func),
            old(cursor).wf(),
            old(cursor).func.has_room(),
            node.0 < old(self).unknowns@.len(),
            val.0 < old(cursor).func.defs@.len(),
        ensures
            final(self).wf(),
            final(self).defined_in(&final(cursor).func),
            final(cursor).wf(),
            final(cursor).state() == cursor_after(
                *old(cursor),
                old(self).residual@[node.0 as int].spec_contribution(reactive),
                val,
                negate,
            ),
            final(self).residual@ == old(self).residual@.update(
                node.0 as int,
                old(self).residual@[node.0 as int].with_contribution(
                    reactive,
                    accumulated(
                        *old(cursor),
                        old(self).residual@[node.0 as int].spec_contribution(reactive),
                        val,
                        negate,
                    ),
                ),
            ),
            final(self).unknowns@ == old(self).unknowns@,
            final(self).jacobian@ == old(self).jacobian@,
            final(self).noise_sources@ == old(self).noise_sources@,
    {
        let r = self.residual[node.0 as usize];
        let mut dst = r.contribution(reactive);
        crate::util::add(cursor, &mut dst, val, negate);
        let updated = if reactive {
            Residual {
                resist: r.resist,
                react: dst,
                resist_lim_rhs: r.resist_lim_rhs,
                react_lim_rhs: r.react_lim_rhs,
            }
        } else {
            Residual {
                resist: dst,
                react: r.react,
                resist_lim_rhs: r.resist_lim_rhs,
                react_lim_rhs: r.react_lim_rhs,
            }
        };
        self.residual.set(node.0 as usize, updated);
    }

    /// Drops every Jacobian entry whose two channels are both zero once
    /// constants are seen through their optimization barriers, keeps the
    /// others in their order, and counts what each channel holds.
    pub fn sparsify(&mut self, func: &Function)
        requires
            old(self).wf(),
        ensures
            final(self).sparse(),
            final(self).jacobian@ == sparsified(old(self).jacobian@, func),
            final(self).unknowns@ == old(self).unknowns@,
            final(self).residual@ == old(self).residual@,
            final(self).noise_sources@ == old(self).noise_sources@,
    {
        let mut kept: Vec<MatrixEntry> = Vec::new();
        let mut num_resistive: u32 = 0;
        let mut num_reactive: u32 = 0;
        let n = self.jacobian.len();
        let mut i: usize = 0;
        while i < n
            invariant
                i <= n,
                n == self.jacobian@.len(),
                n <= u32::MAX,
                *self == *old(self),
                self.wf(),
                kept@ == sparsified(self.jacobian@.take(i as int), func),
                kept@.len() <= i,
                num_resistive == count_present(kept@, false),
                num_reactive == count_present(kept@, true),
                forall|k: int| 0 <= k < kept@.len() ==> !(#[trigger] kept@[k]).is_empty(),
                forall|k: int|
                    0 <= k < kept@.len() ==> (#[trigger] kept@[k]).row.0 < self.unknowns@.len()
                        && kept@[k].col.0 < self.unknowns@.len(),
            decreases n - i,
        {
            let e = self.jacobian[i];
            let stripped = MatrixEntry {
                row: e.row,
                col: e.col,
                resist: strip_optbarrier_if_const(func, e.resist),
                react: strip_optbarrier_if_const(func, e.react),
            };
            proof {
                assert(self.jacobian@.take(i + 1).drop_last() =~= self.jacobian@.take(i as int));
                assert(self.jacobian@.take(i + 1).last() == e);
                assert(stripped == e.stripped(func));
                lemma_count_present_bound(kept@, false);
                lemma_count_present_bound(kept@, true);
            }
            if stripped.present(false) || stripped.present(true) {
                let ghost before = kept@;
                kept.push(stripped);
                proof {
                    assert(kept@.drop_last() =~= before);
                }
                if stripped.present(false) {
                    num_resistive = num_resistive + 1;
                }
                if stripped.present(true) {
                    num_reactive = num_reactive + 1;
                }
            }
            i = i + 1;
        }
        proof {
            assert(self.jacobian@.take(n as int) =~= self.jacobian@);
            lemma_sparsified_keyed(self.jacobian@, func);
        }
        self.jacobian = kept;
        self.num_resistive = num_resistive;
        self.num_reactive = num_reactive;
    }
}

} // verus!
