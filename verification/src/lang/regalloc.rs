//! Register allocation: bind named runtime variables and scratch temporaries to
//! the tamal ISA's 15 usable physical registers (`x1`..`x15`; `x0` is the
//! wired zero and is never allocated). A scoped, lowest-free-first pool:
//! leaving a scope frees everything bound inside it, so a nested scope can
//! never clobber an outer live value. A value that outlives its scope is
//! carried across by [`RegAlloc::reserve`]. There is no spill target, so
//! exhaustion is a hard error.
use vstd::prelude::*;

use crate::abi::isa::Reg;
use crate::assembler::diagnostics::{span_copy, Diagnostic, Span};
use crate::text::str_eq;

verus! {

broadcast use {Reg::lemma_spec_new, Reg::lemma_value_determines};

/// The number of physical registers (`x0`..`x15`); `x0` is reserved (zero).
pub const NUM_REGS: usize = 16;

/// One open lexical scope: the registers allocated in it (freed on exit) and
/// the names bound in it (dropped on exit).
#[derive(Debug)]
pub struct Scope {
    regs: Vec<Reg>,
    names: Vec<String>,
}

/// A scope's registers, and the names bound in it.
pub closed spec fn scope_view(sc: Scope) -> (Seq<Reg>, Seq<Seq<char>>) {
    (sc.regs@, sc.names@.map_values(|n: String| n@))
}

/// A scoped, lowest-free-first register allocator over `x1`..`x15`.
#[derive(Debug)]
pub struct RegAlloc {
    busy: Vec<bool>,
    scopes: Vec<Scope>,
    bindings: Vec<(String, Reg)>,
}

/// The first binding of `name` in a name-to-register list.
pub open spec fn reg_of(list: Seq<(String, Reg)>, name: Seq<char>) -> Option<Reg>
    decreases list.len(),
{
    if list.len() == 0 {
        None
    } else if list.last().0@ == name {
        Some(list.last().1)
    } else {
        reg_of(list.drop_last(), name)
    }
}

/// The lowest free register from `n` on, among `x1`..`x15`.
pub open spec fn lowest_free_from(busy: Seq<bool>, n: int) -> Option<int>
    decreases 16 - n,
{
    if n < 1 || n >= 16 {
        None
    } else if !busy[n] {
        Some(n)
    } else {
        lowest_free_from(busy, n + 1)
    }
}

/// The lowest free register of `x1`..`x15`, if any.
pub open spec fn lowest_free(busy: Seq<bool>) -> Option<int> {
    lowest_free_from(busy, 1)
}

/// The search from `n` on finds the first free register of `n`..`x15`.
proof fn lemma_lowest_free_from(busy: Seq<bool>, n: int)
    requires
        busy.len() == NUM_REGS,
        1 <= n,
    ensures
        match lowest_free_from(busy, n) {
            Some(r) => n <= r <= 15 && !busy[r] && forall|k: int| n <= k < r ==> #[trigger] busy[k],
            None => forall|k: int| n <= k <= 15 ==> #[trigger] busy[k],
        },
    decreases 16 - n,
{
    if n < 16 && busy[n] {
        lemma_lowest_free_from(busy, n + 1);
    }
}

/// The allocation order: the register handed out is the lowest free one of
/// `x1`..`x15` (never `x0`, never a busy one), and there is none exactly when
/// all fifteen are busy.
pub proof fn lemma_lowest_free(busy: Seq<bool>)
    requires
        busy.len() == NUM_REGS,
    ensures
        match lowest_free(busy) {
            Some(r) => 1 <= r <= 15 && !busy[r] && forall|k: int| 1 <= k < r ==> #[trigger] busy[k],
            None => forall|k: int| 1 <= k <= 15 ==> #[trigger] busy[k],
        },
{
    lemma_lowest_free_from(busy, 1);
}

/// A well-formed allocator tracks all sixteen registers.
pub proof fn lemma_busy_len(a: &RegAlloc)
    requires
        a.wf(),
    ensures
        a.busy_view().len() == NUM_REGS,
{
}

/// `regs` without `reg`.
pub open spec fn drop_reg(regs: Seq<Reg>, reg: Reg) -> Seq<Reg> {
    regs.filter(|r: Reg| r != reg)
}

/// `busy` with the registers of `regs` cleared.
pub open spec fn clear_regs(busy: Seq<bool>, regs: Seq<Reg>) -> Seq<bool>
    decreases regs.len(),
{
    if regs.len() == 0 {
        busy
    } else {
        let b = clear_regs(busy, regs.drop_last());
        let n = regs.last().value() as int;
        if n < b.len() {
            b.update(n, false)
        } else {
            b
        }
    }
}

impl RegAlloc {
    /// The allocator's bookkeeping is consistent: sixteen busy flags, and at
    /// least the root scope open.
    pub closed spec fn wf(&self) -> bool {
        self.busy@.len() == NUM_REGS && self.scopes@.len() >= 1
    }

    /// `busy[n]`: physical register `xn` is in use.
    pub closed spec fn busy_view(&self) -> Seq<bool> {
        self.busy@
    }

    /// The number of open scopes (the root counts).
    pub open spec fn depth(&self) -> nat {
        self.scopes_view().len()
    }

    /// The open scopes, outermost first: for each, the registers allocated
    /// in it and the names bound in it.
    pub closed spec fn scopes_view(&self) -> Seq<(Seq<Reg>, Seq<Seq<char>>)> {
        self.scopes@.map_values(|sc: Scope| scope_view(sc))
    }

    /// The registers owned by the innermost scope.
    pub open spec fn top_regs(&self) -> Seq<Reg> {
        self.scopes_view().last().0
    }

    /// The names bound in the innermost scope.
    pub open spec fn top_names(&self) -> Seq<Seq<char>> {
        self.scopes_view().last().1
    }

    /// The register a name is bound to.
    pub closed spec fn binding(&self, name: Seq<char>) -> Option<Reg> {
        reg_of(self.bindings@, name)
    }

    /// A fresh allocator with a single root scope and nothing allocated.
    pub fn new() -> (res: RegAlloc)
        ensures
            res.wf(),
            res.depth() == 1,
            res.scopes_view() == seq![(Seq::<Reg>::empty(), Seq::<Seq<char>>::empty())],
            forall|n: int| 0 <= n < 16 ==> !(#[trigger] res.busy_view()[n]),
            forall|name: Seq<char>| #[trigger] res.binding(name) is None,
    {
        let mut busy: Vec<bool> = Vec::new();
        let mut k: usize = 0;
        while k < NUM_REGS
            invariant
                k <= NUM_REGS,
                busy@.len() == k,
                forall|n: int| 0 <= n < k ==> !(#[trigger] busy@[n]),
            decreases NUM_REGS - k,
        {
            busy.push(false);
            k = k + 1;
        }
        let mut scopes: Vec<Scope> = Vec::new();
        scopes.push(Scope { regs: Vec::new(), names: Vec::new() });
        let res = RegAlloc { busy, scopes, bindings: Vec::new() };
        assert(res.scopes_view() =~= seq![(Seq::<Reg>::empty(), Seq::<Seq<char>>::empty())]) by {
            assert(scope_view(res.scopes@[0]).1 =~= Seq::<Seq<char>>::empty());
        }
        res
    }

    /// Open a nested scope (a `frame`, or a `proc` expansion).
    pub fn enter_scope(&mut self)
        requires
            old(self).wf(),
        ensures
            final(self).wf(),
            final(self).depth() == old(self).depth() + 1,
            final(self).busy_view() == old(self).busy_view(),
            final(self).top_regs().len() == 0,
            final(self).scopes_view() == old(self).scopes_view().push(
                (Seq::<Reg>::empty(), Seq::<Seq<char>>::empty()),
            ),
            forall|name: Seq<char>| #[trigger] final(self).binding(name) == old(self).binding(name),
    {
        self.scopes.push(Scope { regs: Vec::new(), names: Vec::new() });
        proof {
            let last = self.scopes@.last();
            assert(scope_view(last).1 =~= Seq::<Seq<char>>::empty());
            assert(self.scopes_view() =~= old(self).scopes_view().push(
                (Seq::<Reg>::empty(), Seq::<Seq<char>>::empty()),
            ));
        }
    }

    /// Close the innermost scope, freeing its registers and dropping its
    /// names. The root scope is never popped.
    pub fn exit_scope(&mut self)
        requires
            old(self).wf(),
        ensures
            final(self).wf(),
            old(self).depth() <= 1 ==> final(self).busy_view() == old(self).busy_view()
                && final(self).scopes_view() == old(self).scopes_view()
                && forall|name: Seq<char>| #[trigger] final(self).binding(name) == old(self).binding(name),
            old(self).depth() > 1 ==> final(self).scopes_view() == old(self).scopes_view().drop_last()
                && final(self).busy_view() == clear_regs(old(self).busy_view(), old(self).top_regs())
                && forall|name: Seq<char>| #[trigger] final(self).binding(name) == if old(self).top_names().contains(name) {
                    None
                } else {
                    old(self).binding(name)
                },
    {
        if self.scopes.len() <= 1 {
            return;
        }
        let ghost names_v = old(self).top_names();
        let scope = self.scopes.pop().unwrap();
        proof {
            assert(self.scopes_view() =~= old(self).scopes_view().drop_last());
            assert(names_v == scope.names@.map_values(|n: String| n@));
        }
        let ghost regs = scope.regs@;
        let mut k: usize = 0;
        let ghost busy0 = self.busy@;
        while k < scope.regs.len()
            invariant
                k <= regs.len(),
                regs == scope.regs@,
                regs == old(self).scopes@.last().regs@,
                self.scopes@ == old(self).scopes@.drop_last(),
                old(self).scopes@.len() > 1,
                self.busy@ == clear_regs(busy0, regs.subrange(0, k as int)),
                self.busy@.len() == NUM_REGS,
                self.bindings@ == old(self).bindings@,
            decreases regs.len() - k,
        {
            let n = scope.regs[k].bits() as usize;
            assert(regs.subrange(0, k + 1).drop_last() =~= regs.subrange(0, k as int));
            if n < self.busy.len() {
                self.busy.set(n, false);
            }
            k = k + 1;
        }
        assert(regs.subrange(0, regs.len() as int) =~= regs);
        let ghost busy1 = self.busy@;
        let ghost scopes1 = self.scopes@;
        let ghost b0 = self.bindings@;
        let mut j: usize = 0;
        while j < scope.names.len()
            invariant
                j <= scope.names@.len(),
                self.busy@ == busy1,
                self.scopes@ == scopes1,
                names_v == scope.names@.map_values(|n: String| n@),
                b0 == old(self).bindings@,
                forall|q: Seq<char>| #[trigger] reg_of(self.bindings@, q) == if names_v.subrange(0, j as int).contains(q) {
                    None
                } else {
                    reg_of(b0, q)
                },
            decreases scope.names@.len() - j,
        {
            let ghost bj = self.bindings@;
            remove_binding(&mut self.bindings, scope.names[j].as_str());
            proof {
                assert forall|q: Seq<char>| #[trigger] reg_of(self.bindings@, q) == if names_v.subrange(0, j + 1).contains(q) {
                    None
                } else {
                    reg_of(b0, q)
                } by {
                    let sub = names_v.subrange(0, j + 1);
                    assert(sub =~= names_v.subrange(0, j as int).push(names_v[j as int]));
                    assert(names_v[j as int] == scope.names@[j as int]@);
                    if q == names_v[j as int] {
                        assert(sub[j as int] == q);
                    } else {
                        if sub.contains(q) {
                            let w = choose|w: int| 0 <= w < sub.len() && sub[w] == q;
                            assert(names_v.subrange(0, j as int)[w] == q);
                        }
                        if names_v.subrange(0, j as int).contains(q) {
                            let w = choose|w: int| 0 <= w < j && names_v.subrange(0, j as int)[w] == q;
                            assert(sub[w] == q);
                        }
                    }
                }
            }
            j = j + 1;
        }
        proof {
            assert(names_v.subrange(0, scope.names@.len() as int) =~= names_v);
        }
    }

    /// Allocate the lowest free physical register, recording it in the
    /// current scope. Errors (no spill) when `x1`..`x15` are all in use.
    fn take_lowest(&mut self, span: &Span) -> (res: Result<Reg, Diagnostic>)
        requires
            old(self).wf(),
        ensures
            final(self).wf(),
            final(self).depth() == old(self).depth(),
            forall|name: Seq<char>| #[trigger] final(self).binding(name) == old(self).binding(name),
            match lowest_free(old(self).busy_view()) {
                Some(n) => res == Ok::<Reg, Diagnostic>(Reg::spec_new(n as u8))
                    && final(self).busy_view() == old(self).busy_view().update(n, true)
                    && final(self).top_regs() == old(self).top_regs().push(Reg::spec_new(n as u8))
                    && final(self).scopes_view() == old(self).scopes_view().drop_last().push(
                        (old(self).top_regs().push(Reg::spec_new(n as u8)), old(self).top_names()),
                    ),
                None => res is Err && final(self).busy_view() == old(self).busy_view()
                    && final(self).scopes_view() == old(self).scopes_view()
                    && res->Err_0.message@ == "out of registers (the tamal ISA has only x1..x15 and no spill)"@
                    && res->Err_0.primary == *span,
            },
    {
        let mut n: usize = 1;
        while n < NUM_REGS
            invariant
                1 <= n <= NUM_REGS,
                self.busy@.len() == NUM_REGS,
                self.wf(),
                self == old(self),
                lowest_free(self.busy@) == lowest_free_from(self.busy@, n as int),
            decreases NUM_REGS - n,
        {
            if !self.busy[n] {
                self.busy.set(n, true);
                let reg = Reg::new(n as u8).unwrap();
                let last = self.scopes.len() - 1;
                let mut top = self.scopes.pop().unwrap();
                let ghost top0 = top;
                top.regs.push(reg);
                self.scopes.push(top);
                proof {
                    assert(self.scopes@.len() == old(self).scopes@.len());
                    assert(top0 == old(self).scopes@.last());
                    assert(self.scopes_view() =~= old(self).scopes_view().drop_last().push(
                        (old(self).top_regs().push(reg), old(self).top_names()),
                    ));
                }
                return Ok(reg);
            }
            n = n + 1;
        }
        Err(
            Diagnostic::error(
                span_copy(span),
                "out of registers (the tamal ISA has only x1..x15 and no spill)",
            ).with_help("free a value by ending its scope, or use fewer live variables"),
        )
    }

    /// Allocate an anonymous scratch register (freed by [`RegAlloc::free`] or
    /// at scope exit).
    pub fn temp(&mut self, span: &Span) -> (res: Result<Reg, Diagnostic>)
        requires
            old(self).wf(),
        ensures
            final(self).wf(),
            final(self).depth() == old(self).depth(),
            forall|name: Seq<char>| #[trigger] final(self).binding(name) == old(self).binding(name),
            match lowest_free(old(self).busy_view()) {
                Some(n) => res == Ok::<Reg, Diagnostic>(Reg::spec_new(n as u8))
                    && final(self).busy_view() == old(self).busy_view().update(n, true)
                    && final(self).top_regs() == old(self).top_regs().push(Reg::spec_new(n as u8))
                    && final(self).scopes_view() == old(self).scopes_view().drop_last().push(
                        (old(self).top_regs().push(Reg::spec_new(n as u8)), old(self).top_names()),
                    ),
                None => res is Err && final(self).busy_view() == old(self).busy_view()
                    && final(self).scopes_view() == old(self).scopes_view()
                    && res->Err_0.message@ == "out of registers (the tamal ISA has only x1..x15 and no spill)"@
                    && res->Err_0.primary == *span,
            },
    {
        self.take_lowest(span)
    }

    /// Allocate a register and bind `name` to it for the current scope.
    pub fn bind(&mut self, name: String, span: &Span) -> (res: Result<Reg, Diagnostic>)
        requires
            old(self).wf(),
        ensures
            final(self).wf(),
            final(self).depth() == old(self).depth(),
            match lowest_free(old(self).busy_view()) {
                Some(n) => res == Ok::<Reg, Diagnostic>(Reg::spec_new(n as u8))
                    && final(self).busy_view() == old(self).busy_view().update(n, true)
                    && final(self).top_regs() == old(self).top_regs().push(Reg::spec_new(n as u8))
                    && final(self).scopes_view() == old(self).scopes_view().drop_last().push(
                        (old(self).top_regs().push(Reg::spec_new(n as u8)), old(self).top_names().push(name@)),
                    )
                    && forall|k: Seq<char>| #[trigger] final(self).binding(k) == if k == name@ {
                        Some(Reg::spec_new(n as u8))
                    } else {
                        old(self).binding(k)
                    },
                None => res is Err && final(self).busy_view() == old(self).busy_view()
                    && final(self).scopes_view() == old(self).scopes_view()
                    && forall|k: Seq<char>| #[trigger] final(self).binding(k) == old(self).binding(k),
            },
    {
        let reg = self.take_lowest(span)?;
        let ghost s1 = *self;
        let ghost nm = name@;
        let copy = name.clone();
        remove_binding(&mut self.bindings, name.as_str());
        let ghost mid = self.bindings@;
        self.bindings.push((name, reg));
        proof {
            assert(self.bindings@.last().0@ == nm);
            assert(self.bindings@.last().1 == reg);
            assert forall|k: Seq<char>| #[trigger] reg_of(self.bindings@, k) == if k == nm {
                Some(reg)
            } else {
                reg_of(old(self).bindings@, k)
            } by {
                assert(self.bindings@.drop_last() =~= mid);
                assert(s1.binding(k) == old(self).binding(k));
                assert(reg_of(mid, k) == if k == nm { None } else { reg_of(s1.bindings@, k) });
            }
        }
        let ghost sv1 = self.scopes_view();
        let mut top = self.scopes.pop().unwrap();
        let ghost top0 = top;
        top.names.push(copy);
        self.scopes.push(top);
        proof {
            assert(top0 == s1.scopes@.last());
            assert(scope_view(top).1 =~= scope_view(top0).1.push(nm));
            assert(self.scopes_view() =~= sv1.drop_last().push((sv1.last().0, sv1.last().1.push(nm))));
        }
        Ok(reg)
    }

    /// The register a name is currently bound to, if any.
    pub fn lookup(&self, name: &str) -> (res: Option<Reg>)
        ensures
            res == self.binding(name@),
    {
        let mut k = self.bindings.len();
        assert(self.bindings@.subrange(0, k as int) =~= self.bindings@);
        while k > 0
            invariant
                k <= self.bindings@.len(),
                reg_of(self.bindings@, name@) == reg_of(self.bindings@.subrange(0, k as int), name@),
            decreases k,
        {
            let ghost pre = self.bindings@.subrange(0, k as int);
            assert(pre.drop_last() =~= self.bindings@.subrange(0, k - 1));
            if str_eq(self.bindings[k - 1].0.as_str(), name) {
                return Some(self.bindings[k - 1].1);
            }
            k = k - 1;
        }
        assert(self.bindings@.subrange(0, 0) =~= Seq::<(String, Reg)>::empty());
        None
    }

    /// Release a register early (before its scope ends). Harmless for a
    /// register never issued, already released, or outside `x1`..`x15`.
    pub fn free(&mut self, reg: Reg)
        requires
            old(self).wf(),
        ensures
            final(self).wf(),
            final(self).depth() == old(self).depth(),
            final(self).busy_view() == if reg.value() < 16 {
                old(self).busy_view().update(reg.value() as int, false)
            } else {
                old(self).busy_view()
            },
            forall|k: int| 0 <= k < final(self).top_regs().len() ==> #[trigger] final(self).top_regs()[k] != reg,
            final(self).top_regs() == drop_reg(old(self).top_regs(), reg),
            final(self).scopes_view().drop_last() == old(self).scopes_view().drop_last(),
            final(self).top_names() == old(self).top_names(),
            forall|name: Seq<char>| #[trigger] final(self).binding(name) == old(self).binding(name),
    {
        let n = reg.bits() as usize;
        if n < self.busy.len() {
            self.busy.set(n, false);
        }
        let ghost sv0 = self.scopes_view();
        let mut top = self.scopes.pop().unwrap();
        let ghost top0 = top;
        let mut kept: Vec<Reg> = Vec::new();
        let mut k: usize = 0;
        while k < top.regs.len()
            invariant
                k <= top.regs@.len(),
                forall|q: int| 0 <= q < kept@.len() ==> #[trigger] kept@[q] != reg,
                kept@ == drop_reg(top.regs@.subrange(0, k as int), reg),
            decreases top.regs@.len() - k,
        {
            let ghost sub = top.regs@.subrange(0, k + 1);
            proof {
                assert(sub.drop_last() =~= top.regs@.subrange(0, k as int));
                assert(sub.last() == top.regs@[k as int]);
                reveal(Seq::filter);
                assert(drop_reg(sub, reg) == if sub.last() != reg {
                    drop_reg(sub.drop_last(), reg).push(sub.last())
                } else {
                    drop_reg(sub.drop_last(), reg)
                });
            }
            if top.regs[k] != reg {
                kept.push(top.regs[k]);
            }
            k = k + 1;
        }
        assert(top.regs@.subrange(0, top.regs@.len() as int) =~= top.regs@);
        top.regs = kept;
        self.scopes.push(top);
        proof {
            assert(top0 == old(self).scopes@.last());
            assert(self.scopes_view() =~= sv0.drop_last().push((drop_reg(sv0.last().0, reg), sv0.last().1)));
        }
    }

    /// Re-take `reg` in the current scope, for a value whose allocating scope
    /// has ended but which is still live. Idempotent.
    pub fn reserve(&mut self, reg: Reg)
        requires
            old(self).wf(),
        ensures
            final(self).wf(),
            final(self).depth() == old(self).depth(),
            final(self).busy_view() == if reg.value() < 16 {
                old(self).busy_view().update(reg.value() as int, true)
            } else {
                old(self).busy_view()
            },
            final(self).top_regs().contains(reg),
            final(self).top_regs() == if old(self).top_regs().contains(reg) {
                old(self).top_regs()
            } else {
                old(self).top_regs().push(reg)
            },
            final(self).scopes_view().drop_last() == old(self).scopes_view().drop_last(),
            final(self).top_names() == old(self).top_names(),
            forall|name: Seq<char>| #[trigger] final(self).binding(name) == old(self).binding(name),
    {
        let n = reg.bits() as usize;
        if n < self.busy.len() {
            self.busy.set(n, true);
        }
        let ghost sv0 = self.scopes_view();
        let mut top = self.scopes.pop().unwrap();
        let ghost top0 = top;
        let mut found = false;
        let mut k: usize = 0;
        while k < top.regs.len()
            invariant
                k <= top.regs@.len(),
                found <==> top.regs@.subrange(0, k as int).contains(reg),
            decreases top.regs@.len() - k,
        {
            proof {
                let sub = top.regs@.subrange(0, k + 1);
                if top.regs@.subrange(0, k as int).contains(reg) {
                    let w = choose|w: int| 0 <= w < k && top.regs@.subrange(0, k as int)[w] == reg;
                    assert(sub[w] == reg);
                }
                if sub.contains(reg) && top.regs@[k as int] != reg {
                    let w = choose|w: int| 0 <= w < k + 1 && sub[w] == reg;
                    assert(top.regs@.subrange(0, k as int)[w] == reg);
                }
                if top.regs@[k as int] == reg {
                    assert(sub[k as int] == reg);
                }
            }
            if top.regs[k] == reg {
                found = true;
            }
            k = k + 1;
        }
        assert(top.regs@.subrange(0, top.regs@.len() as int) =~= top.regs@);
        if !found {
            top.regs.push(reg);
            assert(top.regs@[top.regs@.len() - 1] == reg);
        }
        self.scopes.push(top);
        proof {
            assert(top0 == old(self).scopes@.last());
            assert(self.scopes_view() =~= sv0.drop_last().push((scope_view(top).0, sv0.last().1)));
        }
    }
}

/// Remove every binding of `name`.
fn remove_binding(list: &mut Vec<(String, Reg)>, name: &str)
    ensures
        forall|k: Seq<char>| #[trigger] reg_of(final(list)@, k) == if k == name@ {
            None
        } else {
            reg_of(old(list)@, k)
        },
{
    let mut kept: Vec<(String, Reg)> = Vec::new();
    let mut k: usize = 0;
    while k < list.len()
        invariant
            k <= old(list)@.len(),
            list@ == old(list)@,
            forall|q: Seq<char>| #[trigger] reg_of(kept@, q) == if q == name@ {
                None
            } else {
                reg_of(old(list)@.subrange(0, k as int), q)
            },
        decreases old(list)@.len() - k,
    {
        let ghost pre = kept@;
        let ghost cur = old(list)@.subrange(0, k + 1);
        assert(cur.drop_last() =~= old(list)@.subrange(0, k as int));
        assert(cur.last() == old(list)@[k as int]);
        if !str_eq(list[k].0.as_str(), name) {
            let e = (list[k].0.clone(), list[k].1);
            kept.push(e);
            proof {
                assert(kept@.last() == e);
                assert(kept@.drop_last() =~= pre);
                assert forall|q: Seq<char>| #[trigger] reg_of(kept@, q) == if q == name@ {
                    None
                } else {
                    reg_of(cur, q)
                } by {
                    assert(reg_of(pre, q) == if q == name@ { None } else { reg_of(old(list)@.subrange(0, k as int), q) });
                }
            }
        } else {
            proof {
                assert forall|q: Seq<char>| #[trigger] reg_of(kept@, q) == if q == name@ {
                    None
                } else {
                    reg_of(cur, q)
                } by {
                    assert(reg_of(pre, q) == if q == name@ { None } else { reg_of(old(list)@.subrange(0, k as int), q) });
                }
            }
        }
        k = k + 1;
    }
    assert(old(list)@.subrange(0, old(list)@.len() as int) =~= old(list)@);
    *list = kept;
}

} // verus!
