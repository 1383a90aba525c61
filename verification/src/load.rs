//! Generation of the entry points that load residual, Jacobian, right-hand
//! side and noise contributions into simulator buffers.

use vstd::prelude::*;
use vstd::string::*;
use crate::compilation_unit::{entry_name, ArgType, OsdiCompilationUnit, Prototype};
use crate::dae::{
    count_present, has_table, MatrixEntry, MatrixEntryId, NoiseSource, NoiseSourceKind, Residual, SimUnknown,
};
use crate::ir::{f_zero, Value};
use crate::tivec::{lists_of, row, row_lists, row_mut, rows_from};
use typed_index_collections::TiVec;

verus! {

/// A value that a generated loader computes.
#[derive(Debug, PartialEq, Eq)]
pub enum Expr {
    /// What the evaluation stored for a value of the module's equations.
    Output(Value),
    /// The previous solution at an unknown.
    Voltage(SimUnknown),
    /// The frequency that the caller hands in.
    Freq,
    /// The integration coefficient that the caller hands in.
    Alpha,
    /// The real constant zero.
    Zero,
    Add(Box<Expr>, Box<Expr>),
    Sub(Box<Expr>, Box<Expr>),
    Mul(Box<Expr>, Box<Expr>),
    Div(Box<Expr>, Box<Expr>),
    Pow(Box<Expr>, Box<Expr>),
}

/// Where a generated loader puts a value.
#[derive(Debug, Clone, Copy, PartialEq, Eq, Structural)]
pub enum Dest {
    /// The place of an unknown in the destination vector. The value is
    /// added to what stands there, or subtracted where `negate` is set.
    Contrib { node: SimUnknown, negate: bool },
    /// The Jacobian slot of an entry, resistive or reactive, reached
    /// directly or through the byte offset that the caller hands in.
    Jacobian { entry: MatrixEntryId, reactive: bool, with_offset: bool },
    /// A position in the dense destination array.
    Array { pos: u32 },
}

/// One store of a generated loader.
#[derive(Debug, PartialEq, Eq)]
pub struct Store {
    pub dest: Dest,
    pub value: Expr,
}

/// A generated loader: its declaration and its stores, in order.
pub struct LoadFunction {
    pub prototype: Prototype,
    pub stores: Vec<Store>,
}

pub open spec fn e_add(a: Expr, b: Expr) -> Expr {
    Expr::Add(Box::new(a), Box::new(b))
}

pub open spec fn e_sub(a: Expr, b: Expr) -> Expr {
    Expr::Sub(Box::new(a), Box::new(b))
}

pub open spec fn e_mul(a: Expr, b: Expr) -> Expr {
    Expr::Mul(Box::new(a), Box::new(b))
}

pub open spec fn e_div(a: Expr, b: Expr) -> Expr {
    Expr::Div(Box::new(a), Box::new(b))
}

pub open spec fn e_pow(a: Expr, b: Expr) -> Expr {
    Expr::Pow(Box::new(a), Box::new(b))
}

fn mk_add(a: Expr, b: Expr) -> (r: Expr)
    ensures
        r == e_add(a, b),
{
    Expr::Add(Box::new(a), Box::new(b))
}

fn mk_sub(a: Expr, b: Expr) -> (r: Expr)
    ensures
        r == e_sub(a, b),
{
    Expr::Sub(Box::new(a), Box::new(b))
}

fn mk_mul(a: Expr, b: Expr) -> (r: Expr)
    ensures
        r == e_mul(a, b),
{
    Expr::Mul(Box::new(a), Box::new(b))
}

fn mk_div(a: Expr, b: Expr) -> (r: Expr)
    ensures
        r == e_div(a, b),
{
    Expr::Div(Box::new(a), Box::new(b))
}

fn mk_pow(a: Expr, b: Expr) -> (r: Expr)
    ensures
        r == e_pow(a, b),
{
    Expr::Pow(Box::new(a), Box::new(b))
}

/// Which Jacobian a loader fills.
#[derive(Debug, Clone, Copy, PartialEq, Eq, Structural)]
pub enum JacobianLoadType {
    Tran,
    Resist,
    React,
}

impl JacobianLoadType {
    /// Whether the loader stores into the reactive Jacobian slots.
    pub open spec fn spec_dst_reactive(self) -> bool {
        self == JacobianLoadType::React
    }

    /// Whether the loader reads the resistive channel of an entry.
    pub open spec fn spec_read_resistive(self) -> bool {
        self == JacobianLoadType::Resist || self == JacobianLoadType::Tran
    }

    /// Whether the loader reads the reactive channel of an entry.
    pub open spec fn spec_read_reactive(self) -> bool {
        self == JacobianLoadType::React || self == JacobianLoadType::Tran
    }

    /// The part of an entry point's symbol that names the kind.
    pub open spec fn spec_name(self) -> Seq<char> {
        match self {
            JacobianLoadType::Tran => "tran"@,
            JacobianLoadType::Resist => "resist"@,
            JacobianLoadType::React => "react"@,
        }
    }

    #[verifier::when_used_as_spec(spec_dst_reactive)]
    pub fn dst_reactive(self) -> (r: bool)
        ensures
            r == self.spec_dst_reactive(),
    {
        matches!(self, JacobianLoadType::React)
    }

    #[verifier::when_used_as_spec(spec_read_resistive)]
    pub fn read_resistive(self) -> (r: bool)
        ensures
            r == self.spec_read_resistive(),
    {
        matches!(self, JacobianLoadType::Resist | JacobianLoadType::Tran)
    }

    #[verifier::when_used_as_spec(spec_read_reactive)]
    pub fn read_reactive(self) -> (r: bool)
        ensures
            r == self.spec_read_reactive(),
    {
        matches!(self, JacobianLoadType::React | JacobianLoadType::Tran)
    }

    pub fn name(self) -> (r: &'static str)
        ensures
            r@ == self.spec_name(),
    {
        match self {
            JacobianLoadType::Tran => "tran",
            JacobianLoadType::Resist => "resist",
            JacobianLoadType::React => "react",
        }
    }
}

/// The part of an entry point's symbol that names the channel.
pub open spec fn channel_name(reactive: bool) -> Seq<char> {
    if reactive {
        "react"@
    } else {
        "resist"@
    }
}

/// The symbol of a loader: what it loads, the channel or kind, and the
/// module's own symbol.
pub open spec fn loader_name(what: Seq<char>, part: Seq<char>, sym: Seq<char>) -> Seq<char> {
    what + part + "_"@ + sym
}

fn make_loader_name(what: &str, part: &str, sym: &String) -> (name: String)
    ensures
        name@ == loader_name(what@, part@, sym@),
{
    let mut name = String::from_str(what);
    name.append(part);
    name.append("_");
    name.append(sym.as_str());
    name
}

fn internal_prototype(name: String, args: Vec<ArgType>) -> (p: Prototype)
    ensures
        p.name@ == name@,
        p.args@ == args@,
        p.ret == ArgType::Void,
        !p.exported,
{
    Prototype { name, args, ret: ArgType::Void, exported: false }
}

/// The stores by which the contributions of one channel reach the
/// destination vector: one for each unknown that has a contribution, in the
/// order of the unknowns. With `lim` the limiting corrections are meant,
/// which are subtracted.
pub open spec fn contrib_stores(residual: Seq<Residual>, reactive: bool, lim: bool) -> Seq<Store>
    decreases residual.len(),
{
    if residual.len() == 0 {
        Seq::empty()
    } else {
        let rest = contrib_stores(residual.drop_last(), reactive, lim);
        let val = if lim {
            residual.last().spec_lim_rhs(reactive)
        } else {
            residual.last().spec_contribution(reactive)
        };
        if val != f_zero() {
            rest.push(
                Store {
                    dest: Dest::Contrib { node: SimUnknown((residual.len() - 1) as u32), negate: lim },
                    value: Expr::Output(val),
                },
            )
        } else {
            rest
        }
    }
}

/// What a Jacobian loader stores for one entry, if anything: the
/// resistive value, the reactive value, or for the transient Jacobian their
/// sum with the reactive value scaled by the integration coefficient. A
/// loader that stores through an offset has no coefficient and leaves the
/// reactive value unscaled. An absent channel adds nothing.
pub open spec fn jacobian_value(e: MatrixEntry, kind: JacobianLoadType, with_offset: bool) -> Option<
    Expr,
> {
    let resist = if kind.spec_read_resistive() && e.spec_present(false) {
        Some(Expr::Output(e.resist))
    } else {
        None
    };
    if kind.spec_read_reactive() && e.spec_present(true) {
        let react = if kind == JacobianLoadType::Tran && !with_offset {
            e_mul(Expr::Output(e.react), Expr::Alpha)
        } else {
            Expr::Output(e.react)
        };
        match resist {
            Some(r) => Some(e_add(r, react)),
            None => Some(react),
        }
    } else {
        resist
    }
}

/// The stores of a Jacobian loader: one for each entry that has a value
/// for the kind, in the order of the entries, each to the slot of its entry.
pub open spec fn jacobian_stores(entries: Seq<MatrixEntry>, kind: JacobianLoadType, with_offset: bool) -> Seq<
    Store,
>
    decreases entries.len(),
{
    if entries.len() == 0 {
        Seq::empty()
    } else {
        let rest = jacobian_stores(entries.drop_last(), kind, with_offset);
        match jacobian_value(entries.last(), kind, with_offset) {
            Some(value) => rest.push(
                Store {
                    dest: Dest::Jacobian {
                        entry: MatrixEntryId((entries.len() - 1) as u32),
                        reactive: kind.spec_dst_reactive(),
                        with_offset,
                    },
                    value,
                },
            ),
            None => rest,
        }
    }
}

/// The stores that write one channel of the Jacobian into a dense array:
/// the entries that have a value in the channel, in the order of the
/// entries, at consecutive positions from zero.
pub open spec fn array_stores(entries: Seq<MatrixEntry>, reactive: bool) -> Seq<Store>
    decreases entries.len(),
{
    if entries.len() == 0 {
        Seq::empty()
    } else {
        let rest = array_stores(entries.drop_last(), reactive);
        if entries.last().spec_present(reactive) {
            rest.push(
                Store {
                    dest: Dest::Array { pos: rest.len() as u32 },
                    value: Expr::Output(entries.last().spec_channel(reactive)),
                },
            )
        } else {
            rest
        }
    }
}

/// The spectrum of a noise source before scaling: the amplitude of white
/// noise; for flicker noise the amplitude divided by the frequency raised to
/// the exponent. Of a source given by a table nothing is said: it has no
/// loader.
pub open spec fn noise_shape(kind: NoiseSourceKind) -> Expr
    recommends
        !(kind is NoiseTable),
{
    match kind {
        NoiseSourceKind::WhiteNoise { pwr } => Expr::Output(pwr),
        NoiseSourceKind::FlickerNoise { pwr, exp } => e_div(
            Expr::Output(pwr),
            e_pow(Expr::Freq, Expr::Output(exp)),
        ),
        NoiseSourceKind::NoiseTable { .. } => arbitrary(),
    }
}

/// The power of a noise source: its shape times the square of its factor.
pub open spec fn noise_power(src: NoiseSource) -> Expr {
    e_mul(e_mul(noise_shape(src.kind), Expr::Output(src.factor)), Expr::Output(src.factor))
}

/// The stores of the noise loader: the power of each source at the
/// position of the source.
pub open spec fn noise_stores(sources: Seq<NoiseSource>) -> Seq<Store> {
    Seq::new(
        sources.len(),
        |i: int| Store { dest: Dest::Array { pos: i as u32 }, value: noise_power(sources[i]) },
    )
}

impl OsdiCompilationUnit {
    /// Generates the loader of the residual of one channel: for each
    /// unknown with a contribution in that channel, in order, it adds the
    /// contribution at the unknown's place. Unknowns without one are not
    /// touched.
    pub fn load_residual(&self, reactive: bool) -> (f: LoadFunction)
        requires
            self.wf(),
        ensures
            f.prototype.name@ == loader_name(
                "load_residual_"@,
                channel_name(reactive),
                self.module.sym@,
            ),
            f.prototype.args@ == seq![ArgType::Ptr, ArgType::Ptr, ArgType::Ptr],
            f.prototype.ret == ArgType::Void,
            !f.prototype.exported,
            f.stores@ == contrib_stores(self.module.dae_system.residual@, reactive, false),
    {
        let name = make_loader_name(
            "load_residual_",
            if reactive {
                "react"
            } else {
                "resist"
            },
            &self.module.sym,
        );
        let stores = self.contrib_loads(reactive, false);
        LoadFunction { prototype: internal_prototype(name, three_pointers()), stores }
    }

    /// Generates the loader of the limiting corrections of one channel:
    /// for each unknown with a correction in that channel, in order, it
    /// subtracts the correction at the unknown's place.
    pub fn load_lim_rhs(&self, reactive: bool) -> (f: LoadFunction)
        requires
            self.wf(),
        ensures
            f.prototype.name@ == loader_name(
                "load_lim_rhs_"@,
                channel_name(reactive),
                self.module.sym@,
            ),
            f.prototype.args@ == seq![ArgType::Ptr, ArgType::Ptr, ArgType::Ptr],
            f.prototype.ret == ArgType::Void,
            !f.prototype.exported,
            f.stores@ == contrib_stores(self.module.dae_system.residual@, reactive, true),
    {
        let name = make_loader_name(
            "load_lim_rhs_",
            if reactive {
                "react"
            } else {
                "resist"
            },
            &self.module.sym,
        );
        let stores = self.contrib_loads(reactive, true);
        LoadFunction { prototype: internal_prototype(name, three_pointers()), stores }
    }

    fn contrib_loads(&self, reactive: bool, lim: bool) -> (stores: Vec<Store>)
        requires
            self.wf(),
        ensures
            stores@ == contrib_stores(self.module.dae_system.residual@, reactive, lim),
    {
        let residual = &self.module.dae_system.residual;
        let mut stores: Vec<Store> = Vec::new();
        let n = residual.len();
        let mut node: usize = 0;
        while node < n
            invariant
                node <= n,
                n == residual@.len(),
                n <= u32::MAX,
                stores@ == contrib_stores(residual@.take(node as int), reactive, lim),
            decreases n - node,
        {
            let r = residual[node];
            let val = if lim {
                r.lim_rhs(reactive)
            } else {
                r.contribution(reactive)
            };
            proof {
                assert(residual@.take(node + 1).drop_last() =~= residual@.take(node as int));
                assert(residual@.take(node + 1).last() == r);
            }
            if val.0 != 0 {
                stores.push(
                    Store {
                        dest: Dest::Contrib { node: SimUnknown(node as u32), negate: lim },
                        value: Expr::Output(val),
                    },
                );
            }
            node = node + 1;
        }
        proof {
            assert(residual@.take(n as int) =~= residual@);
        }
        stores
    }

    /// Generates a Jacobian loader. For each entry, in order, it stores
    /// the value for the kind into the slot of the entry; an entry without
    /// such a value is skipped, never written as zero. The loader takes the
    /// integration coefficient only for the transient Jacobian without
    /// offset, and the byte offset only where it stores through one.
    pub fn load_jacobian(&self, kind: JacobianLoadType, with_offset: bool) -> (f: LoadFunction)
        requires
            self.wf(),
        ensures
            f.prototype.name@ == loader_name(
                if with_offset {
                    "load_jacobian_with_offset_"@
                } else {
                    "load_jacobian_"@
                },
                kind.spec_name(),
                self.module.sym@,
            ),
            f.prototype.args@ == if with_offset {
                seq![ArgType::Ptr, ArgType::Ptr, ArgType::Size]
            } else if kind == JacobianLoadType::Tran {
                seq![ArgType::Ptr, ArgType::Ptr, ArgType::Double]
            } else {
                seq![ArgType::Ptr, ArgType::Ptr]
            },
            f.prototype.ret == ArgType::Void,
            !f.prototype.exported,
            f.stores@ == jacobian_stores(self.module.dae_system.jacobian@, kind, with_offset),
    {
        let mut args: Vec<ArgType> = Vec::new();
        args.push(ArgType::Ptr);
        args.push(ArgType::Ptr);
        if with_offset {
            args.push(ArgType::Size);
            assert(args@ =~= seq![ArgType::Ptr, ArgType::Ptr, ArgType::Size]);
        } else if matches!(kind, JacobianLoadType::Tran) {
            args.push(ArgType::Double);
            assert(args@ =~= seq![ArgType::Ptr, ArgType::Ptr, ArgType::Double]);
        } else {
            assert(args@ =~= seq![ArgType::Ptr, ArgType::Ptr]);
        }
        let name = if with_offset {
            make_loader_name("load_jacobian_with_offset_", kind.name(), &self.module.sym)
        } else {
            make_loader_name("load_jacobian_", kind.name(), &self.module.sym)
        };

        let jacobian = &self.module.dae_system.jacobian;
        let mut stores: Vec<Store> = Vec::new();
        let n = jacobian.len();
        let mut entry: usize = 0;
        while entry < n
            invariant
                entry <= n,
                n == jacobian@.len(),
                n <= u32::MAX,
                stores@ == jacobian_stores(jacobian@.take(entry as int), kind, with_offset),
            decreases n - entry,
        {
            let e = jacobian[entry];
            proof {
                assert(jacobian@.take(entry + 1).drop_last() =~= jacobian@.take(entry as int));
                assert(jacobian@.take(entry + 1).last() == e);
            }
            let mut res: Option<Expr> = None;
            if kind.read_resistive() && e.present(false) {
                res = Some(Expr::Output(e.resist));
            }
            if kind.read_reactive() && e.present(true) {
                let mut val = Expr::Output(e.react);
                if matches!(kind, JacobianLoadType::Tran) && !with_offset {
                    val = mk_mul(val, Expr::Alpha);
                }
                val = match res {
                    Some(resist) => mk_add(resist, val),
                    None => val,
                };
                res = Some(val);
            }
            if let Some(value) = res {
                stores.push(
                    Store {
                        dest: Dest::Jacobian {
                            entry: MatrixEntryId(entry as u32),
                            reactive: kind.dst_reactive(),
                            with_offset,
                        },
                        value,
                    },
                );
            }
            entry = entry + 1;
        }
        proof {
            assert(jacobian@.take(n as int) =~= jacobian@);
        }
        LoadFunction { prototype: internal_prototype(name, args), stores }
    }

    /// Generates the writer of one channel of the Jacobian into a dense
    /// array: the entries that have a value in the channel, in the order of
    /// the entries and without gaps. The reactive kind writes the reactive
    /// channel, every other kind the resistive one. The array has as many
    /// places as the channel has values.
    pub fn write_jacobian_array(&self, kind: JacobianLoadType) -> (f: LoadFunction)
        requires
            self.wf(),
        ensures
            f.prototype.name@ == loader_name(
                "write_jacobian_array_"@,
                kind.spec_name(),
                self.module.sym@,
            ),
            f.prototype.args@ == seq![ArgType::Ptr, ArgType::Ptr, ArgType::Ptr],
            f.prototype.ret == ArgType::Void,
            !f.prototype.exported,
            f.stores@ == array_stores(self.module.dae_system.jacobian@, !kind.spec_read_resistive()),
            f.stores@.len() == if kind.spec_read_resistive() {
                self.module.dae_system.num_resistive
            } else {
                self.module.dae_system.num_reactive
            },
    {
        let name = make_loader_name("write_jacobian_array_", kind.name(), &self.module.sym);
        let reactive = !kind.read_resistive();
        let jacobian = &self.module.dae_system.jacobian;
        let mut stores: Vec<Store> = Vec::new();
        let mut pos: u32 = 0;
        let n = jacobian.len();
        let mut entry: usize = 0;
        while entry < n
            invariant
                entry <= n,
                n == jacobian@.len(),
                n <= u32::MAX,
                pos == stores@.len(),
                pos <= entry,
                stores@ == array_stores(jacobian@.take(entry as int), reactive),
                stores@.len() == count_present(jacobian@.take(entry as int), reactive),
            decreases n - entry,
        {
            let e = jacobian[entry];
            proof {
                assert(jacobian@.take(entry + 1).drop_last() =~= jacobian@.take(entry as int));
                assert(jacobian@.take(entry + 1).last() == e);
            }
            if e.present(reactive) {
                stores.push(
                    Store { dest: Dest::Array { pos }, value: Expr::Output(e.channel(reactive)) },
                );
                pos = pos + 1;
            }
            entry = entry + 1;
        }
        proof {
            assert(jacobian@.take(n as int) =~= jacobian@);
        }
        LoadFunction { prototype: internal_prototype(name, three_pointers()), stores }
    }

    /// Generates the noise loader: for each source, in order, the power
    /// at the position of the source. A source given by a table is not
    /// implemented: a module that has one has no noise loader, and its
    /// generation must stop before this call.
    pub fn load_noise(&self) -> (f: LoadFunction)
        requires
            self.wf(),
            !has_table(self.module.dae_system.noise_sources@),
        ensures
            f.prototype.name@ == "load_noise_"@ + self.module.sym@,
            f.prototype.args@ == seq![ArgType::Ptr, ArgType::Ptr, ArgType::Double, ArgType::Ptr],
            f.prototype.ret == ArgType::Void,
            !f.prototype.exported,
            f.stores@ == noise_stores(self.module.dae_system.noise_sources@),
    {
        let name = entry_name("load_noise_", &self.module.sym);
        let mut args: Vec<ArgType> = Vec::new();
        args.push(ArgType::Ptr);
        args.push(ArgType::Ptr);
        args.push(ArgType::Double);
        args.push(ArgType::Ptr);
        assert(args@ =~= seq![ArgType::Ptr, ArgType::Ptr, ArgType::Double, ArgType::Ptr]);

        let sources = &self.module.dae_system.noise_sources;
        let mut stores: Vec<Store> = Vec::new();
        let n = sources.len();
        let mut i: usize = 0;
        while i < n
            invariant
                i <= n,
                n == sources@.len(),
                n <= u32::MAX,
                !has_table(sources@),
                stores@ == noise_stores(sources@.take(i as int)),
            decreases n - i,
        {
            let src = sources[i];
            let fac = Expr::Output(src.factor);
            let fac2 = Expr::Output(src.factor);
            let shape = match src.kind {
                NoiseSourceKind::WhiteNoise { pwr } => Expr::Output(pwr),
                NoiseSourceKind::FlickerNoise { pwr, exp } => {
                    let freq_exp = mk_pow(Expr::Freq, Expr::Output(exp));
                    mk_div(Expr::Output(pwr), freq_exp)
                },
                NoiseSourceKind::NoiseTable { .. } => {
                    proof {
                        assert(sources@[i as int].kind is NoiseTable);
                    }
                    unreached()
                },
            };
            let pwr = mk_mul(mk_mul(shape, fac), fac2);
            stores.push(Store { dest: Dest::Array { pos: i as u32 }, value: pwr });
            i = i + 1;
            proof {
                assert(stores@ =~= noise_stores(sources@.take(i as int)));
            }
        }
        proof {
            assert(sources@.take(n as int) =~= sources@);
        }
        LoadFunction { prototype: internal_prototype(name, args), stores }
    }
}

/// The entries of one row, by their numbers, in the order of the entries.
pub open spec fn row_entries(entries: Seq<MatrixEntry>, node: int) -> Seq<u32>
    decreases entries.len(),
{
    if entries.len() == 0 {
        Seq::empty()
    } else {
        let rest = row_entries(entries.drop_last(), node);
        if entries.last().row.0 == node {
            rest.push((entries.len() - 1) as u32)
        } else {
            rest
        }
    }
}

/// The entries of every row of a system with `n` unknowns.
pub open spec fn rows_of(entries: Seq<MatrixEntry>, n: nat) -> Seq<Seq<u32>> {
    Seq::new(n, |node: int| row_entries(entries, node))
}

fn node_derivatives(jacobian: &Vec<MatrixEntry>, n: usize) -> (rows: TiVec<usize, Vec<u32>>)
    requires
        jacobian@.len() <= u32::MAX,
        forall|k: int| 0 <= k < jacobian@.len() ==> (#[trigger] jacobian@[k]).row.0 < n,
    ensures
        row_lists(rows) == rows_of(jacobian@, n as nat),
{
    let mut lists: Vec<Vec<u32>> = Vec::new();
    let mut i: usize = 0;
    while i < n
        invariant
            i <= n,
            lists@.len() == i,
            forall|k: int| 0 <= k < i ==> (#[trigger] lists@[k])@.len() == 0,
        decreases n - i,
    {
        lists.push(Vec::new());
        i = i + 1;
    }
    let mut rows = rows_from(lists);
    assert(row_lists(rows) =~= rows_of(jacobian@.take(0), n as nat)) by {
        assert forall|k: int| 0 <= k < n implies #[trigger] row_lists(rows)[k] =~= row_entries(
            jacobian@.take(0),
            k,
        ) by {}
    }
    let m = jacobian.len();
    let mut id: usize = 0;
    while id < m
        invariant
            id <= m,
            m == jacobian@.len(),
            m <= u32::MAX,
            forall|k: int| 0 <= k < jacobian@.len() ==> (#[trigger] jacobian@[k]).row.0 < n,
            row_lists(rows) == rows_of(jacobian@.take(id as int), n as nat),
        decreases m - id,
    {
        let e = jacobian[id];
        let r = e.row.0 as usize;
        let ghost before = row_lists(rows);
        let list = row_mut(&mut rows, r);
        list.push(id as u32);
        proof {
            assert(jacobian@.take(id + 1).drop_last() =~= jacobian@.take(id as int));
            assert(jacobian@.take(id + 1).last() == e);
            assert(row_lists(rows) =~= rows_of(jacobian@.take(id + 1), n as nat));
        }
        id = id + 1;
    }
    proof {
        assert(jacobian@.take(m as int) =~= jacobian@);
    }
    rows
}

/// Every entry listed for a row is an entry of the system.
pub proof fn lemma_row_entries_bound(entries: Seq<MatrixEntry>, node: int)
    ensures
        forall|k: int|
            0 <= k < row_entries(entries, node).len() ==> (#[trigger] row_entries(entries, node)[k])
                < entries.len(),
    decreases entries.len(),
{
    if entries.len() > 0 {
        lemma_row_entries_bound(entries.drop_last(), node);
        let rest = row_entries(entries.drop_last(), node);
        assert forall|k: int| 0 <= k < row_entries(entries, node).len() implies (#[trigger] row_entries(
            entries,
            node,
        )[k]) < entries.len() by {
            if k < rest.len() {
                assert(row_entries(entries, node)[k] == rest[k]);
            }
        }
    }
}

/// The sum, over the listed entries that have a value in the channel, of
/// the value times the previous solution at the entry's column; nothing
/// where no listed entry has a value.
pub open spec fn sum_terms(ids: Seq<u32>, entries: Seq<MatrixEntry>, reactive: bool) -> Option<Expr>
    decreases ids.len(),
{
    if ids.len() == 0 {
        None
    } else {
        let prev = sum_terms(ids.drop_last(), entries, reactive);
        let e = entries[ids.last() as int];
        if e.spec_present(reactive) {
            let val = e_mul(Expr::Output(e.spec_channel(reactive)), Expr::Voltage(e.col));
            match prev {
                Some(old) => Some(e_add(old, val)),
                None => Some(val),
            }
        } else {
            prev
        }
    }
}

/// The right-hand side term of one unknown in simulator convention, if
/// it has one. The Jacobian of the row times the previous solution comes
/// first. The direct-current pass subtracts the resistive residual from it,
/// or from zero where the row is empty. To what there is the limiting
/// correction of the pass's channel is added, and the transient pass scales
/// the whole by the integration coefficient.
pub open spec fn spice_rhs_value(
    entries: Seq<MatrixEntry>,
    residual: Residual,
    node: int,
    tran: bool,
) -> Option<Expr> {
    let sum = sum_terms(row_entries(entries, node), entries, tran);
    let res = if !tran && residual.resist != f_zero() {
        Some(
            e_sub(
                match sum {
                    Some(s) => s,
                    None => Expr::Zero,
                },
                Expr::Output(residual.resist),
            ),
        )
    } else {
        sum
    };
    match res {
        None => None,
        Some(r) => {
            let with_lim = if residual.spec_lim_rhs(tran) != f_zero() {
                e_add(r, Expr::Output(residual.spec_lim_rhs(tran)))
            } else {
                r
            };
            if tran {
                Some(e_mul(with_lim, Expr::Alpha))
            } else {
                Some(with_lim)
            }
        },
    }
}

/// The stores of one pass of the right-hand side loader over the first
/// `n` unknowns: one for each unknown that has a term, in the order of the
/// unknowns.
pub open spec fn spice_rhs_stores(
    entries: Seq<MatrixEntry>,
    residual: Seq<Residual>,
    n: nat,
    tran: bool,
) -> Seq<Store>
    decreases n,
{
    if n == 0 {
        Seq::empty()
    } else {
        let rest = spice_rhs_stores(entries, residual, (n - 1) as nat, tran);
        match spice_rhs_value(entries, residual[n - 1], n - 1, tran) {
            Some(value) => rest.push(
                Store { dest: Dest::Contrib { node: SimUnknown((n - 1) as u32), negate: false }, value },
            ),
            None => rest,
        }
    }
}

impl OsdiCompilationUnit {
    /// Generates one pass of the right-hand side loader, the transient
    /// one or the direct-current one, behind the stores that are there.
    pub fn load_spice_rhs_(&self, tran: bool, stores: &mut Vec<Store>)
        requires
            self.wf(),
        ensures
            final(stores)@ == old(stores)@ + spice_rhs_stores(
                self.module.dae_system.jacobian@,
                self.module.dae_system.residual@,
                self.module.dae_system.unknowns@.len(),
                tran,
            ),
    {
        let dae_system = &self.module.dae_system;
        let n = dae_system.unknowns.len();
        let rows = node_derivatives(&dae_system.jacobian, n);
        let mut node: usize = 0;
        proof {
            assert(stores@ =~= old(stores)@ + spice_rhs_stores(
                dae_system.jacobian@,
                dae_system.residual@,
                0,
                tran,
            ));
        }
        while node < n
            invariant
                node <= n,
                n == dae_system.unknowns@.len(),
                dae_system.wf(),
                row_lists(rows) == rows_of(dae_system.jacobian@, n as nat),
                stores@ == old(stores)@ + spice_rhs_stores(
                    dae_system.jacobian@,
                    dae_system.residual@,
                    node as nat,
                    tran,
                ),
            decreases n - node,
        {
            let list = row(&rows, node);
            proof {
                lemma_row_entries_bound(dae_system.jacobian@, node as int);
                assert(list@ == row_entries(dae_system.jacobian@, node as int));
            }
            let mut res: Option<Expr> = None;
            let mut k: usize = 0;
            proof {
                assert(list@.take(0) =~= Seq::<u32>::empty());
            }
            while k < list.len()
                invariant
                    k <= list@.len(),
                    forall|j: int| 0 <= j < list@.len() ==> (#[trigger] list@[j]) < dae_system.jacobian@.len(),
                    res == sum_terms(list@.take(k as int), dae_system.jacobian@, tran),
                decreases list@.len() - k,
            {
                let entry = list[k];
                let e = dae_system.jacobian[entry as usize];
                proof {
                    assert(list@.take(k + 1).drop_last() =~= list@.take(k as int));
                    assert(list@.take(k + 1).last() == entry);
                }
                if e.present(tran) {
                    let val = mk_mul(Expr::Output(e.channel(tran)), Expr::Voltage(e.col));
                    res = match res {
                        Some(old) => Some(mk_add(old, val)),
                        None => Some(val),
                    };
                }
                k = k + 1;
            }
            proof {
                assert(list@.take(k as int) =~= list@);
            }
            let residual = dae_system.residual[node];
            if !tran {
                let resist = residual.contribution(false);
                if resist.0 != 0 {
                    let base = match res {
                        Some(sum) => sum,
                        None => Expr::Zero,
                    };
                    res = Some(mk_sub(base, Expr::Output(resist)));
                }
            }
            if let Some(r) = res {
                let mut value = r;
                let lim_rhs = residual.lim_rhs(tran);
                if lim_rhs.0 != 0 {
                    value = mk_add(value, Expr::Output(lim_rhs));
                }
                if tran {
                    value = mk_mul(value, Expr::Alpha);
                }
                stores.push(
                    Store { dest: Dest::Contrib { node: SimUnknown(node as u32), negate: false }, value },
                );
            }
            node = node + 1;
            proof {
                assert(stores@ =~= old(stores)@ + spice_rhs_stores(
                    dae_system.jacobian@,
                    dae_system.residual@,
                    node as nat,
                    tran,
                ));
            }
        }
    }

    /// Generates the right-hand side loader. The direct-current loader is
    /// the direct-current pass; the transient loader runs the transient pass
    /// behind it and takes the integration coefficient as one more argument.
    pub fn load_spice_rhs(&self, tran: bool) -> (f: LoadFunction)
        requires
            self.wf(),
        ensures
            f.prototype.name@ == loader_name(
                "load_spice_rhs_"@,
                if tran {
                    "tran"@
                } else {
                    "dc"@
                },
                self.module.sym@,
            ),
            f.prototype.args@ == if tran {
                seq![ArgType::Ptr, ArgType::Ptr, ArgType::Ptr, ArgType::Ptr, ArgType::Double]
            } else {
                seq![ArgType::Ptr, ArgType::Ptr, ArgType::Ptr, ArgType::Ptr]
            },
            f.prototype.ret == ArgType::Void,
            !f.prototype.exported,
            f.stores@ == spice_rhs_stores(
                self.module.dae_system.jacobian@,
                self.module.dae_system.residual@,
                self.module.dae_system.unknowns@.len(),
                false,
            ) + if tran {
                spice_rhs_stores(
                    self.module.dae_system.jacobian@,
                    self.module.dae_system.residual@,
                    self.module.dae_system.unknowns@.len(),
                    true,
                )
            } else {
                Seq::empty()
            },
    {
        let mut args: Vec<ArgType> = Vec::new();
        args.push(ArgType::Ptr);
        args.push(ArgType::Ptr);
        args.push(ArgType::Ptr);
        args.push(ArgType::Ptr);
        if tran {
            args.push(ArgType::Double);
            assert(args@ =~= seq![
                ArgType::Ptr,
                ArgType::Ptr,
                ArgType::Ptr,
                ArgType::Ptr,
                ArgType::Double,
            ]);
        } else {
            assert(args@ =~= seq![ArgType::Ptr, ArgType::Ptr, ArgType::Ptr, ArgType::Ptr]);
        }
        let name = make_loader_name(
            "load_spice_rhs_",
            if tran {
                "tran"
            } else {
                "dc"
            },
            &self.module.sym,
        );
        let mut stores: Vec<Store> = Vec::new();
        self.load_spice_rhs_(false, &mut stores);
        if tran {
            self.load_spice_rhs_(true, &mut stores);
        }
        proof {
            let dc = spice_rhs_stores(
                self.module.dae_system.jacobian@,
                self.module.dae_system.residual@,
                self.module.dae_system.unknowns@.len(),
                false,
            );
            assert(Seq::<Store>::empty() + dc =~= dc);
            assert(dc + Seq::<Store>::empty() =~= dc);
        }
        LoadFunction { prototype: internal_prototype(name, args), stores }
    }
}

/// Loader completeness for the residual. The loader of a channel has a
/// store for an unknown exactly if the system has a contribution for that
/// unknown in that channel; the same holds of the limiting corrections.
pub proof fn lemma_contrib_stores_complete(residual: Seq<Residual>, reactive: bool, lim: bool, node: u32)
    requires
        residual.len() <= u32::MAX,
    ensures
        (exists|k: int|
            0 <= k < contrib_stores(residual, reactive, lim).len() && (#[trigger] contrib_stores(
                residual,
                reactive,
                lim,
            )[k]).dest == (Dest::Contrib { node: SimUnknown(node), negate: lim })) <==> (node
            < residual.len() && (if lim {
            residual[node as int].spec_lim_rhs(reactive)
        } else {
            residual[node as int].spec_contribution(reactive)
        }) != f_zero()),
    decreases residual.len(),
{
    let stores = contrib_stores(residual, reactive, lim);
    let want = Dest::Contrib { node: SimUnknown(node), negate: lim };
    if residual.len() > 0 {
        let front = residual.drop_last();
        let rest = contrib_stores(front, reactive, lim);
        lemma_contrib_stores_complete(front, reactive, lim, node);
        let val = if lim {
            residual.last().spec_lim_rhs(reactive)
        } else {
            residual.last().spec_contribution(reactive)
        };
        if node < front.len() {
            assert(front[node as int] == residual[node as int]);
        }
        if exists|k: int| 0 <= k < rest.len() && (#[trigger] rest[k]).dest == want {
            let k = choose|k: int| 0 <= k < rest.len() && (#[trigger] rest[k]).dest == want;
            assert(stores[k] == rest[k]);
        }
        if exists|k: int| 0 <= k < stores.len() && (#[trigger] stores[k]).dest == want {
            let k = choose|k: int| 0 <= k < stores.len() && (#[trigger] stores[k]).dest == want;
            if k < rest.len() {
                assert(stores[k] == rest[k]);
            }
        }
        if val != f_zero() && node == residual.len() - 1 {
            assert(stores[rest.len() as int].dest == want);
        }
    }
}

/// Loader completeness for the dense array. The writer of a channel
/// emits exactly as many stores as the channel has values, to consecutive
/// positions from zero, and the value of an entry stands behind the values
/// of all entries before it.
pub proof fn lemma_array_stores_dense(entries: Seq<MatrixEntry>, reactive: bool)
    requires
        entries.len() <= u32::MAX,
    ensures
        array_stores(entries, reactive).len() == count_present(entries, reactive),
        forall|k: int|
            0 <= k < array_stores(entries, reactive).len() ==> (#[trigger] array_stores(
                entries,
                reactive,
            )[k]).dest == (Dest::Array { pos: k as u32 }),
        forall|i: int|
            0 <= i < entries.len() && (#[trigger] entries[i]).spec_present(reactive) ==> {
                let pos = count_present(entries.take(i), reactive) as int;
                pos < array_stores(entries, reactive).len() && array_stores(entries, reactive)[pos].value
                    == Expr::Output(entries[i].spec_channel(reactive))
            },
    decreases entries.len(),
{
    let stores = array_stores(entries, reactive);
    if entries.len() > 0 {
        let front = entries.drop_last();
        let rest = array_stores(front, reactive);
        lemma_array_stores_dense(front, reactive);
        crate::dae::lemma_count_present_bound(front, reactive);
        assert forall|k: int| 0 <= k < stores.len() implies (#[trigger] stores[k]).dest == (Dest::Array {
            pos: k as u32,
        }) by {
            if k < rest.len() {
                assert(stores[k] == rest[k]);
            }
        }
        assert forall|i: int|
            0 <= i < entries.len() && (#[trigger] entries[i]).spec_present(reactive) implies {
            let pos = count_present(entries.take(i), reactive) as int;
            pos < stores.len() && stores[pos].value == Expr::Output(entries[i].spec_channel(reactive))
        } by {
            if i < front.len() {
                assert(front[i] == entries[i]);
                assert(front.take(i) =~= entries.take(i));
                let pos = count_present(front.take(i), reactive) as int;
                assert(stores[pos] == rest[pos]);
            } else {
                assert(entries.take(i) =~= front);
            }
        }
    }
}

/// The noise formula. A white source with factor `f` and amplitude `a`
/// has the power `a * f * f`; a flicker source with amplitude `a` and
/// exponent `e` has the power `a / pow(freq, e) * f * f`. The power of each
/// source stands at the position of the source.
pub proof fn lemma_noise_formula(sources: Seq<NoiseSource>, i: int)
    requires
        0 <= i < sources.len(),
    ensures
        noise_stores(sources).len() == sources.len(),
        noise_stores(sources)[i].dest == (Dest::Array { pos: i as u32 }),
        sources[i].kind matches NoiseSourceKind::WhiteNoise { pwr } ==> noise_stores(sources)[i].value
            == e_mul(
            e_mul(Expr::Output(pwr), Expr::Output(sources[i].factor)),
            Expr::Output(sources[i].factor),
        ),
        sources[i].kind matches NoiseSourceKind::FlickerNoise { pwr, exp } ==> noise_stores(
            sources,
        )[i].value == e_mul(
            e_mul(
                e_div(Expr::Output(pwr), e_pow(Expr::Freq, Expr::Output(exp))),
                Expr::Output(sources[i].factor),
            ),
            Expr::Output(sources[i].factor),
        ),
{
}

fn three_pointers() -> (args: Vec<ArgType>)
    ensures
        args@ == seq![ArgType::Ptr, ArgType::Ptr, ArgType::Ptr],
{
    let mut args: Vec<ArgType> = Vec::new();
    args.push(ArgType::Ptr);
    args.push(ArgType::Ptr);
    args.push(ArgType::Ptr);
    assert(args@ =~= seq![ArgType::Ptr, ArgType::Ptr, ArgType::Ptr]);
    args
}

} // verus!
