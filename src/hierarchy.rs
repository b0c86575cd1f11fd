use vstd::prelude::*;
use vstd::string::StringExecFns;
use vstd::utf8::encode_utf8;

verus! {

/// Index into the hierarchy's string table.
#[derive(Debug, Clone, Copy, PartialEq, Eq, Structural)]
pub struct HierarchyStringId(pub usize);

/// Index of a scope.
#[derive(Debug, Clone, Copy, PartialEq, Eq, Structural)]
pub struct ScopeRef(pub usize);

/// Index of a variable.
#[derive(Debug, Clone, Copy, PartialEq, Eq, Structural)]
pub struct VarRef(pub usize);

/// The handle of a signal: a positive number that names a slot of the signal table.
#[derive(Debug, Clone, Copy, PartialEq, Eq, Structural)]
pub struct SignalRef(pub usize);

/// Index of an enum type.
#[derive(Debug, Clone, Copy, PartialEq, Eq, Structural)]
pub struct EnumTypeId(pub usize);

#[derive(Debug, Clone, Copy, PartialEq, Eq, Structural)]
pub enum ScopeType {
    VhdlBlock,
    VhdlIfGenerate,
    VhdlForGenerate,
    Interface,
    VhdlPackage,
    GhwGeneric,
    VhdlProcess,
    Module,
}

#[derive(Debug, Clone, Copy, PartialEq, Eq, Structural)]
pub enum VarType {
    Wire,
    Port,
}

#[derive(Debug, Clone, Copy, PartialEq, Eq, Structural)]
pub enum VarDirection {
    Input,
    Output,
    InOut,
    Buffer,
    Linkage,
    Implicit,
}

/// The most and least significant index of a vector.
#[derive(Debug, Clone, Copy, PartialEq, Eq, Structural)]
pub struct VarIndex {
    pub msb: i64,
    pub lsb: i64,
}

#[derive(Debug, Clone, Copy, PartialEq, Eq, Structural)]
pub struct Scope {
    pub name: HierarchyStringId,
    pub component: Option<HierarchyStringId>,
    pub tpe: ScopeType,
    pub parent: Option<ScopeRef>,
}

#[derive(Debug, Clone, Copy, PartialEq, Eq, Structural)]
pub struct Var {
    pub name: HierarchyStringId,
    pub var_tpe: VarType,
    pub direction: VarDirection,
    pub width: u32,
    pub index: Option<VarIndex>,
    pub signal: SignalRef,
    pub enum_type: Option<EnumTypeId>,
    pub tpe_name: Option<HierarchyStringId>,
    pub parent: Option<ScopeRef>,
}

/// An enum type: its name and the text of each raw value.
#[derive(Debug)]
pub struct EnumType {
    pub name: HierarchyStringId,
    pub mapping: Vec<(String, String)>,
}

/// The design hierarchy: scopes and variables that hold only their local name and a link to
/// their parent scope. Full names are put together on demand.
#[derive(Debug)]
pub struct Hierarchy {
    pub strings: Vec<String>,
    pub scopes: Vec<Scope>,
    pub vars: Vec<Var>,
    pub enums: Vec<EnumType>,
}

/// Whether a string id names a string of a table with `n` entries.
pub open spec fn str_in(id: HierarchyStringId, n: nat) -> bool {
    id.0 < n
}

pub open spec fn opt_str_in(id: Option<HierarchyStringId>, n: nat) -> bool {
    match id {
        Some(x) => x.0 < n,
        None => true,
    }
}

/// Scope `i` names strings of the table and has an earlier scope as parent.
pub open spec fn scope_wf(s: Scope, i: int, nstr: nat) -> bool {
    &&& str_in(s.name, nstr)
    &&& opt_str_in(s.component, nstr)
    &&& match s.parent {
        Some(p) => p.0 < i,
        None => true,
    }
}

/// A variable names strings of the table, an existing enum type and an existing scope.
pub open spec fn var_wf(v: Var, nstr: nat, nscopes: nat, nenums: nat) -> bool {
    &&& str_in(v.name, nstr)
    &&& opt_str_in(v.tpe_name, nstr)
    &&& match v.enum_type {
        Some(e) => e.0 < nenums,
        None => true,
    }
    &&& match v.parent {
        Some(p) => p.0 < nscopes,
        None => true,
    }
    &&& v.signal.0 >= 1
}

/// Every id stored in the hierarchy names an entry that exists; parents come before children.
pub open spec fn hierarchy_wf(
    strings: Seq<String>,
    scopes: Seq<Scope>,
    vars: Seq<Var>,
    enums: Seq<EnumType>,
) -> bool {
    &&& forall|i: int| 0 <= i < scopes.len() ==> #[trigger] scope_wf(scopes[i], i, strings.len())
    &&& forall|i: int|
        0 <= i < vars.len() ==> #[trigger] var_wf(vars[i], strings.len(), scopes.len(), enums.len())
    &&& forall|i: int| 0 <= i < enums.len() ==> (#[trigger] enums[i]).name.0 < strings.len()
}

/// The full name of scope `i`: the names of its ancestors and its own, joined by dots.
pub open spec fn scope_full_name(strings: Seq<String>, scopes: Seq<Scope>, i: int) -> Seq<char>
    decreases i,
{
    if 0 <= i < scopes.len() {
        match scopes[i].parent {
            Some(p) => if p.0 < i {
                scope_full_name(strings, scopes, p.0 as int) + seq!['.'] + strings[scopes[i].name.0 as int]@
            } else {
                strings[scopes[i].name.0 as int]@
            },
            None => strings[scopes[i].name.0 as int]@,
        }
    } else {
        seq![]
    }
}

/// The full name of variable `v`: the full name of its scope and its own name, joined by a dot.
pub open spec fn var_full_name(strings: Seq<String>, scopes: Seq<Scope>, v: Var) -> Seq<char> {
    match v.parent {
        Some(p) => scope_full_name(strings, scopes, p.0 as int) + seq!['.'] + strings[v.name.0 as int]@,
        None => strings[v.name.0 as int]@,
    }
}

impl Hierarchy {
    pub open spec fn wf(&self) -> bool {
        hierarchy_wf(self.strings@, self.scopes@, self.vars@, self.enums@)
    }

    /// All scopes, in the order they were declared.
    pub fn iter_scopes(&self) -> (r: Vec<ScopeRef>)
        ensures
            r@.len() == self.scopes@.len(),
            forall|i: int| 0 <= i < r@.len() ==> (#[trigger] r@[i]).0 == i,
    {
        let mut out: Vec<ScopeRef> = Vec::new();
        let mut i: usize = 0;
        while i < self.scopes.len()
            invariant
                i <= self.scopes@.len(),
                out@.len() == i,
                forall|j: int| 0 <= j < i ==> (#[trigger] out@[j]).0 == j,
            decreases self.scopes@.len() - i,
        {
            out.push(ScopeRef(i));
            i = i + 1;
        }
        out
    }

    /// All variables, in the order they were declared.
    pub fn iter_vars(&self) -> (r: Vec<VarRef>)
        ensures
            r@.len() == self.vars@.len(),
            forall|i: int| 0 <= i < r@.len() ==> (#[trigger] r@[i]).0 == i,
    {
        let mut out: Vec<VarRef> = Vec::new();
        let mut i: usize = 0;
        while i < self.vars.len()
            invariant
                i <= self.vars@.len(),
                out@.len() == i,
                forall|j: int| 0 <= j < i ==> (#[trigger] out@[j]).0 == j,
            decreases self.vars@.len() - i,
        {
            out.push(VarRef(i));
            i = i + 1;
        }
        out
    }

    pub fn get_scope(&self, s: ScopeRef) -> (r: &Scope)
        requires
            s.0 < self.scopes@.len(),
        ensures
            *r == self.scopes@[s.0 as int],
    {
        &self.scopes[s.0]
    }

    pub fn get_var(&self, v: VarRef) -> (r: &Var)
        requires
            v.0 < self.vars@.len(),
        ensures
            *r == self.vars@[v.0 as int],
    {
        &self.vars[v.0]
    }

    pub fn get_str(&self, id: HierarchyStringId) -> (r: &str)
        requires
            id.0 < self.strings@.len(),
        ensures
            r@ == self.strings@[id.0 as int]@,
    {
        self.strings[id.0].as_str()
    }

    /// Whether variable `i` is the first one that refers to its signal.
    pub open spec fn first_of_signal(&self, i: int) -> bool {
        forall|j: int| 0 <= j < i ==> self.vars@[j].signal != self.vars@[i].signal
    }

    /// One variable for each signal, the first declared that refers to it, in declaration order.
    pub fn get_unique_signals_vars(&self) -> (r: Vec<VarRef>)
        ensures
            forall|k: int|
                0 <= k < r@.len() ==> (#[trigger] r@[k]).0 < self.vars@.len() && self.first_of_signal(
                    r@[k].0 as int,
                ),
            forall|k: int, l: int| 0 <= k < l < r@.len() ==> r@[k].0 < r@[l].0,
            forall|i: int|
                0 <= i < self.vars@.len() && self.first_of_signal(i) ==> exists|k: int|
                    0 <= k < r@.len() && (#[trigger] r@[k]).0 == i,
    {
        let mut out: Vec<VarRef> = Vec::new();
        let mut i: usize = 0;
        while i < self.vars.len()
            invariant
                i <= self.vars@.len(),
                forall|k: int|
                    0 <= k < out@.len() ==> (#[trigger] out@[k]).0 < i && self.first_of_signal(
                        out@[k].0 as int,
                    ),
                forall|k: int, l: int| 0 <= k < l < out@.len() ==> out@[k].0 < out@[l].0,
                forall|j: int|
                    0 <= j < i && self.first_of_signal(j) ==> exists|k: int|
                        0 <= k < out@.len() && (#[trigger] out@[k]).0 == j,
            decreases self.vars@.len() - i,
        {
            let sig = self.vars[i].signal;
            let mut first = true;
            let mut j: usize = 0;
            while j < i
                invariant
                    i < self.vars@.len(),
                    j <= i,
                    sig == self.vars@[i as int].signal,
                    first <==> forall|m: int| 0 <= m < j ==> self.vars@[m].signal != sig,
                decreases i - j,
            {
                if self.vars[j].signal == sig {
                    first = false;
                }
                j = j + 1;
            }
            if first {
                let ghost before = out@;
                out.push(VarRef(i));
                proof {
                    assert forall|jj: int|
                        0 <= jj < i + 1 && self.first_of_signal(jj) implies exists|k: int|
                            0 <= k < out@.len() && (#[trigger] out@[k]).0 == jj by {
                        if jj < i {
                            let k = choose|k: int| 0 <= k < before.len() && (#[trigger] before[k]).0 == jj;
                            assert(out@[k] == before[k]);
                        } else {
                            assert(out@[before.len() as int].0 == jj);
                        }
                    }
                }
            }
            i = i + 1;
        }
        out
    }

    /// The full name of a scope: the local names from the top down, joined by dots.
    pub fn scope_full_name(&self, s: ScopeRef) -> (r: String)
        requires
            self.wf(),
            s.0 < self.scopes@.len(),
        ensures
            r@ == scope_full_name(self.strings@, self.scopes@, s.0 as int),
        decreases s.0,
    {
        let scope = &self.scopes[s.0];
        assert(scope_wf(self.scopes@[s.0 as int], s.0 as int, self.strings@.len()));
        let name = self.strings[scope.name.0].as_str();
        match scope.parent {
            Some(p) => {
                let mut out = self.scope_full_name(p);
                let dot = ".";
                proof {
                    reveal_strlit(".");
                }
                out.append(dot);
                out.append(name);
                out
            },
            None => name.to_owned(),
        }
    }

    /// The full name of a variable: the full name of its scope and its local name, joined by a dot.
    pub fn var_full_name(&self, v: VarRef) -> (r: String)
        requires
            self.wf(),
            v.0 < self.vars@.len(),
        ensures
            r@ == var_full_name(self.strings@, self.scopes@, self.vars@[v.0 as int]),
    {
        let var = &self.vars[v.0];
        assert(var_wf(self.vars@[v.0 as int], self.strings@.len(), self.scopes@.len(), self.enums@.len()));
        let name = self.strings[var.name.0].as_str();
        match var.parent {
            Some(p) => {
                let mut out = self.scope_full_name(p);
                let dot = ".";
                proof {
                    reveal_strlit(".");
                }
                out.append(dot);
                out.append(name);
                out
            },
            None => name.to_owned(),
        }
    }
}

/// Number of bytes of the text `t` in UTF-8.
pub open spec fn byte_len(t: Seq<char>) -> int {
    encode_utf8(t).len() as int
}

/// Bytes of the local names of the first `n` scopes.
pub open spec fn scope_local_bytes(strings: Seq<String>, scopes: Seq<Scope>, n: int) -> int
    decreases n,
{
    if n <= 0 {
        0
    } else {
        scope_local_bytes(strings, scopes, n - 1) + byte_len(strings[scopes[n - 1].name.0 as int]@)
    }
}

/// Bytes of the local names of the first `n` variables.
pub open spec fn var_local_bytes(strings: Seq<String>, vars: Seq<Var>, n: int) -> int
    decreases n,
{
    if n <= 0 {
        0
    } else {
        var_local_bytes(strings, vars, n - 1) + byte_len(strings[vars[n - 1].name.0 as int]@)
    }
}

/// Bytes of the full names of the first `n` scopes.
pub open spec fn scope_full_bytes(strings: Seq<String>, scopes: Seq<Scope>, n: int) -> int
    decreases n,
{
    if n <= 0 {
        0
    } else {
        scope_full_bytes(strings, scopes, n - 1) + byte_len(scope_full_name(strings, scopes, n - 1))
    }
}

/// Bytes of the full names of the first `n` variables.
pub open spec fn var_full_bytes(strings: Seq<String>, scopes: Seq<Scope>, vars: Seq<Var>, n: int) -> int
    decreases n,
{
    if n <= 0 {
        0
    } else {
        var_full_bytes(strings, scopes, vars, n - 1) + byte_len(var_full_name(strings, scopes, vars[n - 1]))
    }
}

/// `x`, or the largest `u64` where `x` is larger.
pub open spec fn capped(x: int) -> int {
    if x > u64::MAX {
        u64::MAX as int
    } else {
        x
    }
}

impl Hierarchy {
    /// The bytes that the names of all scopes and variables take: kept as local names (what
    /// this store does) and as full names (what it avoids). Sums beyond `u64` stop at its maximum.
    pub fn name_bytes(&self) -> (r: (u64, u64))
        requires
            self.wf(),
        ensures
            r.0 == capped(
                scope_local_bytes(self.strings@, self.scopes@, self.scopes@.len() as int) + var_local_bytes(
                    self.strings@,
                    self.vars@,
                    self.vars@.len() as int,
                ),
            ),
            r.1 == capped(
                scope_full_bytes(self.strings@, self.scopes@, self.scopes@.len() as int) + var_full_bytes(
                    self.strings@,
                    self.scopes@,
                    self.vars@,
                    self.vars@.len() as int,
                ),
            ),
    {
        let mut local: u64 = 0;
        let mut full: u64 = 0;
        let mut i: usize = 0;
        while i < self.scopes.len()
            invariant
                self.wf(),
                i <= self.scopes@.len(),
                local == capped(scope_local_bytes(self.strings@, self.scopes@, i as int)),
                full == capped(scope_full_bytes(self.strings@, self.scopes@, i as int)),
                scope_local_bytes(self.strings@, self.scopes@, i as int) >= 0,
                scope_full_bytes(self.strings@, self.scopes@, i as int) >= 0,
            decreases self.scopes@.len() - i,
        {
            assert(scope_wf(self.scopes@[i as int], i as int, self.strings@.len()));
            let name = self.strings[self.scopes[i].name.0].as_str();
            let n = name.as_bytes().len();
            let f = self.scope_full_name(ScopeRef(i));
            let fs = f.as_str();
            let m = fs.as_bytes().len();
            assert(n == byte_len(self.strings@[self.scopes@[i as int].name.0 as int]@));
            assert(m == byte_len(scope_full_name(self.strings@, self.scopes@, i as int)));
            assert(scope_local_bytes(self.strings@, self.scopes@, i + 1) == scope_local_bytes(
                self.strings@,
                self.scopes@,
                i as int,
            ) + n);
            assert(scope_full_bytes(self.strings@, self.scopes@, i + 1) == scope_full_bytes(
                self.strings@,
                self.scopes@,
                i as int,
            ) + m);
            local = local.saturating_add(n as u64);
            full = full.saturating_add(m as u64);
            i = i + 1;
        }
        let ghost sl = scope_local_bytes(self.strings@, self.scopes@, self.scopes@.len() as int);
        let ghost sf = scope_full_bytes(self.strings@, self.scopes@, self.scopes@.len() as int);
        let mut j: usize = 0;
        while j < self.vars.len()
            invariant
                self.wf(),
                j <= self.vars@.len(),
                sl >= 0,
                sf >= 0,
                local == capped(sl + var_local_bytes(self.strings@, self.vars@, j as int)),
                full == capped(sf + var_full_bytes(self.strings@, self.scopes@, self.vars@, j as int)),
                var_local_bytes(self.strings@, self.vars@, j as int) >= 0,
                var_full_bytes(self.strings@, self.scopes@, self.vars@, j as int) >= 0,
            decreases self.vars@.len() - j,
        {
            assert(var_wf(self.vars@[j as int], self.strings@.len(), self.scopes@.len(), self.enums@.len()));
            let name = self.strings[self.vars[j].name.0].as_str();
            let n = name.as_bytes().len();
            let f = self.var_full_name(VarRef(j));
            let fs = f.as_str();
            let m = fs.as_bytes().len();
            assert(n == byte_len(self.strings@[self.vars@[j as int].name.0 as int]@));
            assert(m == byte_len(var_full_name(self.strings@, self.scopes@, self.vars@[j as int])));
            assert(var_local_bytes(self.strings@, self.vars@, j + 1) == var_local_bytes(
                self.strings@,
                self.vars@,
                j as int,
            ) + n);
            assert(var_full_bytes(self.strings@, self.scopes@, self.vars@, j + 1) == var_full_bytes(
                self.strings@,
                self.scopes@,
                self.vars@,
                j as int,
            ) + m);
            local = local.saturating_add(n as u64);
            full = full.saturating_add(m as u64);
            j = j + 1;
        }
        (local, full)
    }
}

/// Bytes of the first `n` strings of the table.
pub open spec fn string_bytes(strings: Seq<String>, n: int) -> int
    decreases n,
{
    if n <= 0 {
        0
    } else {
        string_bytes(strings, n - 1) + byte_len(strings[n - 1]@)
    }
}

/// Bytes that the records of the arrays take, without what the strings hold.
pub open spec fn array_bytes(h: &Hierarchy) -> int {
    (h.scopes@.len() * vstd::layout::size_of::<Scope>() + h.vars@.len() * vstd::layout::size_of::<Var>()
        + h.strings@.len() * vstd::layout::size_of::<String>() + h.enums@.len()
        * vstd::layout::size_of::<EnumType>()) as int
}

fn mul_capped(x: u64, y: u64) -> (r: u64)
    ensures
        r == capped(x * y),
{
    match x.checked_mul(y) {
        Some(v) => v,
        None => u64::MAX,
    }
}

impl Hierarchy {
    /// Bytes that the hierarchy occupies: the records of its scope, variable, string and enum
    /// arrays, and the bytes of every interned string. Sums beyond `u64` stop at its maximum.
    pub fn size_in_memory(&self) -> (r: u64)
        ensures
            r == capped(array_bytes(self) + string_bytes(self.strings@, self.strings@.len() as int)),
    {
        let a = mul_capped(self.scopes.len() as u64, core::mem::size_of::<Scope>() as u64);
        let b = mul_capped(self.vars.len() as u64, core::mem::size_of::<Var>() as u64);
        let c = mul_capped(self.strings.len() as u64, core::mem::size_of::<String>() as u64);
        let e = mul_capped(self.enums.len() as u64, core::mem::size_of::<EnumType>() as u64);
        proof {
            let ss = vstd::layout::size_of::<Scope>();
            let sv = vstd::layout::size_of::<Var>();
            let st = vstd::layout::size_of::<String>();
            let se = vstd::layout::size_of::<EnumType>();
            assert(self.scopes@.len() * ss >= 0) by (nonlinear_arith);
            assert(self.vars@.len() * sv >= 0) by (nonlinear_arith);
            assert(self.strings@.len() * st >= 0) by (nonlinear_arith);
            assert(self.enums@.len() * se >= 0) by (nonlinear_arith);
        }
        let mut total: u64 = a.saturating_add(b).saturating_add(c).saturating_add(e);
        let mut i: usize = 0;
        while i < self.strings.len()
            invariant
                i <= self.strings@.len(),
                array_bytes(self) >= 0,
                string_bytes(self.strings@, i as int) >= 0,
                total == capped(array_bytes(self) + string_bytes(self.strings@, i as int)),
            decreases self.strings@.len() - i,
        {
            let n = self.strings[i].as_str().as_bytes().len();
            assert(n == byte_len(self.strings@[i as int]@));
            assert(string_bytes(self.strings@, i + 1) == string_bytes(self.strings@, i as int) + n);
            total = total.saturating_add(n as u64);
            i = i + 1;
        }
        total
    }
}

impl Scope {
    /// The local name of the scope.
    pub fn name<'a>(&self, h: &'a Hierarchy) -> (r: &'a str)
        requires
            self.name.0 < h.strings@.len(),
        ensures
            r@ == h.strings@[self.name.0 as int]@,
    {
        h.strings[self.name.0].as_str()
    }
}

impl Var {
    /// The local name of the variable.
    pub fn name<'a>(&self, h: &'a Hierarchy) -> (r: &'a str)
        requires
            self.name.0 < h.strings@.len(),
        ensures
            r@ == h.strings@[self.name.0 as int]@,
    {
        h.strings[self.name.0].as_str()
    }

    pub fn signal_ref(&self) -> (r: SignalRef)
        ensures
            r == self.signal,
    {
        self.signal
    }
}

/// Builds a `Hierarchy` while the declarations are read, keeping the stack of open scopes.
pub struct HierarchyBuilder {
    pub strings: Vec<String>,
    pub scopes: Vec<Scope>,
    pub vars: Vec<Var>,
    pub enums: Vec<EnumType>,
    pub stack: Vec<ScopeRef>,
}

impl HierarchyBuilder {
    pub open spec fn wf(&self) -> bool {
        &&& hierarchy_wf(self.strings@, self.scopes@, self.vars@, self.enums@)
        &&& forall|k: int| 0 <= k < self.stack@.len() ==> (#[trigger] self.stack@[k]).0 < self.scopes@.len()
    }

    /// The innermost open scope.
    pub open spec fn current(&self) -> Option<ScopeRef> {
        if self.stack@.len() > 0 {
            Some(self.stack@.last())
        } else {
            None
        }
    }

    pub fn new() -> (r: HierarchyBuilder)
        ensures
            r.wf(),
            r.strings@.len() == 0,
            r.scopes@.len() == 0,
            r.vars@.len() == 0,
            r.enums@.len() == 0,
            r.stack@.len() == 0,
    {
        HierarchyBuilder {
            strings: Vec::new(),
            scopes: Vec::new(),
            vars: Vec::new(),
            enums: Vec::new(),
            stack: Vec::new(),
        }
    }

    /// Appends a string and returns its id.
    pub fn add_string(&mut self, s: String) -> (r: HierarchyStringId)
        requires
            old(self).wf(),
        ensures
            final(self).wf(),
            r.0 == old(self).strings@.len(),
            final(self).strings@ == old(self).strings@.push(s),
            final(self).scopes@ == old(self).scopes@,
            final(self).vars@ == old(self).vars@,
            final(self).enums@ == old(self).enums@,
            final(self).stack@ == old(self).stack@,
    {
        let id = HierarchyStringId(self.strings.len());
        self.strings.push(s);
        proof {
            let n = self.strings@.len();
            assert forall|i: int| 0 <= i < self.scopes@.len() implies #[trigger] scope_wf(
                self.scopes@[i],
                i,
                n,
            ) by {
                assert(scope_wf(self.scopes@[i], i, (n - 1) as nat));
            }
            assert forall|i: int| 0 <= i < self.vars@.len() implies #[trigger] var_wf(
                self.vars@[i],
                n,
                self.scopes@.len(),
                self.enums@.len(),
            ) by {
                assert(var_wf(self.vars@[i], (n - 1) as nat, self.scopes@.len(), self.enums@.len()));
            }
        }
        id
    }

    /// Appends an enum type and returns its id.
    pub fn add_enum_type(&mut self, name: HierarchyStringId, mapping: Vec<(String, String)>) -> (r: EnumTypeId)
        requires
            old(self).wf(),
            name.0 < old(self).strings@.len(),
        ensures
            final(self).wf(),
            r.0 == old(self).enums@.len(),
            final(self).enums@.len() == old(self).enums@.len() + 1,
            final(self).enums@[r.0 as int].name == name,
            final(self).enums@[r.0 as int].mapping@ == mapping@,
            forall|i: int| 0 <= i < old(self).enums@.len() ==> final(self).enums@[i] == old(self).enums@[i],
            final(self).strings@ == old(self).strings@,
            final(self).scopes@ == old(self).scopes@,
            final(self).vars@ == old(self).vars@,
            final(self).stack@ == old(self).stack@,
    {
        let id = EnumTypeId(self.enums.len());
        self.enums.push(EnumType { name, mapping });
        proof {
            let n = self.enums@.len();
            assert forall|i: int| 0 <= i < self.vars@.len() implies #[trigger] var_wf(
                self.vars@[i],
                self.strings@.len(),
                self.scopes@.len(),
                n,
            ) by {
                assert(var_wf(self.vars@[i], self.strings@.len(), self.scopes@.len(), (n - 1) as nat));
            }
        }
        id
    }

    /// Opens a new scope inside the current one.
    pub fn add_scope(&mut self, name: HierarchyStringId, component: Option<HierarchyStringId>, tpe: ScopeType)
        requires
            old(self).wf(),
            name.0 < old(self).strings@.len(),
            opt_str_in(component, old(self).strings@.len()),
        ensures
            final(self).wf(),
            final(self).scopes@ == old(self).scopes@.push(
                Scope { name, component, tpe, parent: old(self).current() },
            ),
            final(self).stack@ == old(self).stack@.push(ScopeRef(old(self).scopes@.len() as usize)),
            final(self).strings@ == old(self).strings@,
            final(self).vars@ == old(self).vars@,
            final(self).enums@ == old(self).enums@,
    {
        let parent = if self.stack.len() > 0 {
            Some(self.stack[self.stack.len() - 1])
        } else {
            None
        };
        let id = ScopeRef(self.scopes.len());
        self.scopes.push(Scope { name, component, tpe, parent });
        self.stack.push(id);
        proof {
            let n = self.scopes@.len();
            assert forall|i: int| 0 <= i < n implies #[trigger] scope_wf(
                self.scopes@[i],
                i,
                self.strings@.len(),
            ) by {
                if i < n - 1 {
                    assert(scope_wf(old(self).scopes@[i], i, self.strings@.len()));
                }
            }
            assert forall|i: int| 0 <= i < self.vars@.len() implies #[trigger] var_wf(
                self.vars@[i],
                self.strings@.len(),
                n,
                self.enums@.len(),
            ) by {
                assert(var_wf(self.vars@[i], self.strings@.len(), (n - 1) as nat, self.enums@.len()));
            }
        }
    }

    /// Closes the current scope; does nothing when none is open.
    pub fn pop_scope(&mut self)
        requires
            old(self).wf(),
        ensures
            final(self).wf(),
            old(self).stack@.len() > 0 ==> final(self).stack@ == old(self).stack@.drop_last(),
            old(self).stack@.len() == 0 ==> final(self).stack@ == old(self).stack@,
            final(self).strings@ == old(self).strings@,
            final(self).scopes@ == old(self).scopes@,
            final(self).vars@ == old(self).vars@,
            final(self).enums@ == old(self).enums@,
    {
        if self.stack.len() > 0 {
            self.stack.pop();
        }
    }

    /// Adds a variable to the current scope.
    pub fn add_var(
        &mut self,
        name: HierarchyStringId,
        var_tpe: VarType,
        direction: VarDirection,
        width: u32,
        index: Option<VarIndex>,
        signal: SignalRef,
        enum_type: Option<EnumTypeId>,
        tpe_name: Option<HierarchyStringId>,
    )
        requires
            old(self).wf(),
            name.0 < old(self).strings@.len(),
            opt_str_in(tpe_name, old(self).strings@.len()),
            signal.0 >= 1,
            match enum_type {
                Some(e) => e.0 < old(self).enums@.len(),
                None => true,
            },
        ensures
            final(self).wf(),
            final(self).vars@ == old(self).vars@.push(
                Var {
                    name,
                    var_tpe,
                    direction,
                    width,
                    index,
                    signal,
                    enum_type,
                    tpe_name,
                    parent: old(self).current(),
                },
            ),
            final(self).strings@ == old(self).strings@,
            final(self).scopes@ == old(self).scopes@,
            final(self).enums@ == old(self).enums@,
            final(self).stack@ == old(self).stack@,
    {
        let parent = if self.stack.len() > 0 {
            Some(self.stack[self.stack.len() - 1])
        } else {
            None
        };
        self.vars.push(
            Var { name, var_tpe, direction, width, index, signal, enum_type, tpe_name, parent },
        );
        proof {
            let n = self.vars@.len();
            assert forall|i: int| 0 <= i < n implies #[trigger] var_wf(
                self.vars@[i],
                self.strings@.len(),
                self.scopes@.len(),
                self.enums@.len(),
            ) by {
                if i < n - 1 {
                    assert(var_wf(old(self).vars@[i], self.strings@.len(), self.scopes@.len(), self.enums@.len()));
                }
            }
        }
    }

    /// Freezes the hierarchy.
    pub fn finish(self) -> (r: Hierarchy)
        requires
            self.wf(),
        ensures
            r.wf(),
            r.strings@ == self.strings@,
            r.scopes@ == self.scopes@,
            r.vars@ == self.vars@,
            r.enums@ == self.enums@,
    {
        Hierarchy { strings: self.strings, scopes: self.scopes, vars: self.vars, enums: self.enums }
    }
}

} // verus!
