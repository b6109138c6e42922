//! What the just-in-time compiler decides before it emits machine code:
//! which names a lambda captures, where each piece of a closure object lies
//! in memory, and what each of a lambda's curried stages does.
//!
//! A compiled value is a `(data, tag)` pair of 64-bit words. A closure object
//! is a header of four words (code pointer, arity, number of captured values,
//! number of applied arguments) followed by `(data, tag)` pairs: first the
//! captured values, then the arguments applied so far.
use vstd::prelude::*;

use vstd::string::StringExecFns;

use crate::ast::{
    bindings_view, strings_view, Ast, Binding, Block, Expr, Import, SpecBinding, SpecBlock, SpecExpr,
};

verus! {

/// Tag of `()`.
pub const TAG_UNIT: i64 = 0;

/// Tag of a number.
pub const TAG_NUMBER: i64 = 1;

/// Tag of a closure.
pub const TAG_CLOSURE: i64 = 2;

// ---------------------------------------------------------------------------
// Free variables.
// ---------------------------------------------------------------------------

/// The names that `e` uses and that neither `bound` nor `module` binds.
pub open spec fn free_set(e: SpecExpr, module: Set<Seq<char>>, bound: Set<Seq<char>>) -> Set<
    Seq<char>,
>
    decreases e,
{
    match e {
        SpecExpr::Ident(n) => if !bound.contains(n) && !module.contains(n) {
            set![n]
        } else {
            Set::empty()
        },
        SpecExpr::Number(_) => Set::empty(),
        SpecExpr::Apply(f, a) => free_set(*f, module, bound) + free_set(*a, module, bound),
        SpecExpr::Lambda(ps, body) => free_set(*body, module, bound + ps.to_set()),
        SpecExpr::Infix(_, l, r) => free_set(*l, module, bound) + free_set(*r, module, bound),
        SpecExpr::Prefix(_, x) => free_set(*x, module, bound),
        SpecExpr::Access(t, _, _) => free_set(*t, module, bound),
        SpecExpr::Record(fields) => fields_free_set(fields, module, bound),
    }
}

pub open spec fn fields_free_set(
    fields: Seq<SpecBinding>,
    module: Set<Seq<char>>,
    bound: Set<Seq<char>>,
) -> Set<Seq<char>>
    decreases fields,
{
    if fields.len() == 0 {
        Set::empty()
    } else {
        free_set(fields[0].value, module, bound) + fields_free_set(
            fields.drop_first(),
            module,
            bound,
        )
    }
}

pub(crate) fn contains_name(names: &Vec<String>, name: &String) -> (b: bool)
    ensures
        b == strings_view(names@).contains(name@),
{
    let mut i: usize = 0;
    while i < names.len()
        invariant
            i <= names@.len(),
            forall|j: int| 0 <= j < i ==> names@[j]@ != name@,
        decreases names@.len() - i,
    {
        if names[i] == *name {
            assert(strings_view(names@)[i as int] == name@);
            return true;
        }
        i = i + 1;
    }
    proof {
        if strings_view(names@).contains(name@) {
            let j = choose|j: int| 0 <= j < strings_view(names@).len() && strings_view(names@)[j]
                == name@;
            assert(names@[j]@ == name@);
        }
    }
    false
}

pub(crate) proof fn lemma_strings_view_push(v: Seq<String>, s: String)
    ensures
        strings_view(v.push(s)) == strings_view(v).push(s@),
{
    assert(strings_view(v.push(s)) =~= strings_view(v).push(s@));
}

pub(crate) proof fn lemma_push_to_set<A>(s: Seq<A>, x: A)
    ensures
        s.push(x).to_set() == s.to_set().insert(x),
{
    assert(s.push(x).to_set() =~= s.to_set().insert(x)) by {
        assert forall|y: A| s.push(x).to_set().contains(y) <==> s.to_set().insert(x).contains(y) by {
            if s.push(x).to_set().contains(y) {
                let j = choose|j: int| 0 <= j < s.push(x).len() && s.push(x)[j] == y;
                if j < s.len() {
                    assert(s[j] == y);
                }
            }
            if s.to_set().contains(y) && y != x {
                let j = choose|j: int| 0 <= j < s.len() && s[j] == y;
                assert(s.push(x)[j] == y);
            }
            if y == x {
                assert(s.push(x)[s.len() as int] == x);
            }
        }
    }
}

/// Adds `name` to `free` unless it is there already.
fn add_name(free: &mut Vec<String>, name: &String)
    requires
        strings_view(old(free)@).no_duplicates(),
    ensures
        strings_view(final(free)@).no_duplicates(),
        strings_view(final(free)@).to_set() == strings_view(old(free)@).to_set().insert(name@),
{
    if contains_name(free, name) {
        proof {
            assert(strings_view(free@).to_set().insert(name@) =~= strings_view(free@).to_set());
        }
        return;
    }
    let ghost before = free@;
    free.push(name.clone());
    proof {
        lemma_strings_view_push(before, *name);
        lemma_push_to_set(strings_view(before), name@);
        let sv = strings_view(free@);
        assert forall|i: int, j: int| 0 <= i < j < sv.len() implies sv[i] != sv[j] by {
            if j == sv.len() - 1 {
                assert(strings_view(before)[i] == sv[i]);
            }
        }
    }
}

/// Adds the free variables of `e` to `free`.
fn collect_free_variables(
    e: &Expr,
    module: &Vec<String>,
    bound: &Vec<String>,
    free: &mut Vec<String>,
)
    requires
        strings_view(old(free)@).no_duplicates(),
    ensures
        strings_view(final(free)@).no_duplicates(),
        strings_view(final(free)@).to_set() == strings_view(old(free)@).to_set() + free_set(
            e@,
            strings_view(module@).to_set(),
            strings_view(bound@).to_set(),
        ),
    decreases e,
{
    let ghost ms = strings_view(module@).to_set();
    let ghost bs = strings_view(bound@).to_set();
    match e {
        Expr::Ident(n) => {
            if !contains_name(bound, n) && !contains_name(module, n) {
                add_name(free, n);
                proof {
                    assert(strings_view(old(free)@).to_set().insert(n@) =~= strings_view(
                        old(free)@,
                    ).to_set() + set![n@]);
                }
            } else {
                assert(strings_view(old(free)@).to_set() + Set::empty() =~= strings_view(
                    old(free)@,
                ).to_set());
            }
        },
        Expr::Number(_) => {
            assert(strings_view(old(free)@).to_set() + Set::empty() =~= strings_view(
                old(free)@,
            ).to_set());
        },
        Expr::Apply { func, arg } => {
            collect_free_variables(func, module, bound, free);
            collect_free_variables(arg, module, bound, free);
            assert(strings_view(final(free)@).to_set() =~= strings_view(old(free)@).to_set()
                + free_set(e@, ms, bs));
        },
        Expr::Lambda { params, body } => {
            let mut new_bound: Vec<String> = Vec::new();
            let mut i: usize = 0;
            while i < bound.len()
                invariant
                    i <= bound@.len(),
                    new_bound@ == bound@.take(i as int),
                decreases bound@.len() - i,
            {
                new_bound.push(bound[i].clone());
                assert(bound@.take(i + 1) =~= bound@.take(i as int).push(bound@[i as int]));
                i = i + 1;
            }
            let mut j: usize = 0;
            while j < params.len()
                invariant
                    j <= params@.len(),
                    new_bound@ == bound@.take(bound@.len() as int) + params@.take(j as int),
                decreases params@.len() - j,
            {
                new_bound.push(params[j].clone());
                assert(params@.take(j + 1) =~= params@.take(j as int).push(params@[j as int]));
                j = j + 1;
            }
            proof {
                assert(bound@.take(bound@.len() as int) =~= bound@);
                assert(params@.take(params@.len() as int) =~= params@);
                assert(strings_view(new_bound@) =~= strings_view(bound@) + strings_view(params@));
                assert(strings_view(new_bound@).to_set() =~= bs + strings_view(params@).to_set())
                    by {
                    let nb = strings_view(new_bound@);
                    let bv = strings_view(bound@);
                    let pv = strings_view(params@);
                    assert forall|y: Seq<char>| nb.to_set().contains(y) <==> (bs
                        + pv.to_set()).contains(y) by {
                        if nb.to_set().contains(y) {
                            let k = choose|k: int| 0 <= k < nb.len() && nb[k] == y;
                            if k < bv.len() {
                                assert(bv[k] == y);
                            } else {
                                assert(pv[k - bv.len()] == y);
                            }
                        }
                        if bv.to_set().contains(y) {
                            let k = choose|k: int| 0 <= k < bv.len() && bv[k] == y;
                            assert(nb[k] == y);
                        }
                        if pv.to_set().contains(y) {
                            let k = choose|k: int| 0 <= k < pv.len() && pv[k] == y;
                            assert(nb[bv.len() + k] == y);
                        }
                    }
                }
            }
            collect_free_variables(body, module, &new_bound, free);
        },
        Expr::Infix { left, right, .. } => {
            collect_free_variables(left, module, bound, free);
            collect_free_variables(right, module, bound, free);
            assert(strings_view(final(free)@).to_set() =~= strings_view(old(free)@).to_set()
                + free_set(e@, ms, bs));
        },
        Expr::Prefix { expr, .. } => {
            collect_free_variables(expr, module, bound, free);
        },
        Expr::Access { target, .. } => {
            collect_free_variables(target, module, bound, free);
        },
        Expr::Record(fields) => {
            collect_fields_free(fields, module, bound, free);
        },
    }
}

fn collect_fields_free(
    fields: &Vec<Binding>,
    module: &Vec<String>,
    bound: &Vec<String>,
    free: &mut Vec<String>,
)
    requires
        strings_view(old(free)@).no_duplicates(),
    ensures
        strings_view(final(free)@).no_duplicates(),
        strings_view(final(free)@).to_set() == strings_view(old(free)@).to_set() + fields_free_set(
            bindings_view(fields@),
            strings_view(module@).to_set(),
            strings_view(bound@).to_set(),
        ),
    decreases fields,
{
    let ghost ms = strings_view(module@).to_set();
    let ghost bs = strings_view(bound@).to_set();
    let mut i: usize = 0;
    proof {
        assert(fields@.take(0) =~= Seq::<Binding>::empty());
        assert(fields@.skip(0) =~= fields@);
        assert(bindings_view(fields@.take(0)) =~= Seq::<SpecBinding>::empty());
        assert(fields_free_set(bindings_view(fields@.take(0)), ms, bs) =~= Set::<Seq<char>>::empty());
        assert(Set::<Seq<char>>::empty() + fields_free_set(bindings_view(fields@), ms, bs)
            =~= fields_free_set(bindings_view(fields@), ms, bs));
        assert(strings_view(old(free)@).to_set() + Set::empty() =~= strings_view(
            old(free)@,
        ).to_set());
    }
    while i < fields.len()
        invariant
            i <= fields@.len(),
            strings_view(free@).no_duplicates(),
            fields_free_set(bindings_view(fields@), ms, bs) == fields_free_set(
                bindings_view(fields@.take(i as int)),
                ms,
                bs,
            ) + fields_free_set(bindings_view(fields@.skip(i as int)), ms, bs),
            strings_view(free@).to_set() == strings_view(old(free)@).to_set() + fields_free_set(
                bindings_view(fields@.take(i as int)),
                ms,
                bs,
            ),
            ms == strings_view(module@).to_set(),
            bs == strings_view(bound@).to_set(),
        decreases fields@.len() - i,
    {
        assert(decreases_to!(fields => fields@[i as int].value));
        collect_free_variables(&fields[i].value, module, bound, free);
        proof {
            lemma_fields_free_split(bindings_view(fields@), i as int, ms, bs, fields@);
        }
        i = i + 1;
    }
    proof {
        assert(fields@.take(i as int) =~= fields@);
    }
}

proof fn lemma_bindings_view_len(bs: Seq<Binding>)
    ensures
        bindings_view(bs).len() == bs.len(),
    decreases bs.len(),
{
    if bs.len() > 0 {
        lemma_bindings_view_len(bs.drop_first());
    }
}

proof fn lemma_bindings_view_take_skip(bs: Seq<Binding>, i: int)
    requires
        0 <= i <= bs.len(),
    ensures
        bindings_view(bs.take(i)) == bindings_view(bs).take(i),
        bindings_view(bs.skip(i)) == bindings_view(bs).skip(i),
        i < bs.len() ==> bindings_view(bs)[i] == bs[i]@,
    decreases i,
{
    lemma_bindings_view_len(bs);
    if i > 0 {
        lemma_bindings_view_take_skip(bs.drop_first(), i - 1);
        assert(bs.drop_first().take(i - 1) =~= bs.take(i).drop_first());
        assert(bs.drop_first().skip(i - 1) =~= bs.skip(i));
        assert(bs.take(i)[0] == bs[0]);
        lemma_bindings_view_len(bs.take(i));
        assert(bindings_view(bs.take(i)) =~= bindings_view(bs).take(i));
        assert(bindings_view(bs).drop_first().skip(i - 1) =~= bindings_view(bs).skip(i));
    } else {
        assert(bs.take(0) =~= Seq::<Binding>::empty());
        assert(bs.skip(0) =~= bs);
        assert(bindings_view(bs).take(0) =~= Seq::<SpecBinding>::empty());
        assert(bindings_view(bs).skip(0) =~= bindings_view(bs));
    }
}

/// The free set of a field list splits at any index.
proof fn lemma_fields_free_concat(
    a: Seq<SpecBinding>,
    b: Seq<SpecBinding>,
    ms: Set<Seq<char>>,
    bs: Set<Seq<char>>,
)
    ensures
        fields_free_set(a + b, ms, bs) == fields_free_set(a, ms, bs) + fields_free_set(b, ms, bs),
    decreases a.len(),
{
    if a.len() == 0 {
        assert(a + b =~= b);
        assert(Set::<Seq<char>>::empty() + fields_free_set(b, ms, bs) =~= fields_free_set(
            b,
            ms,
            bs,
        ));
    } else {
        lemma_fields_free_concat(a.drop_first(), b, ms, bs);
        assert((a + b).drop_first() =~= a.drop_first() + b);
        assert((a + b)[0] == a[0]);
        assert(fields_free_set(a + b, ms, bs) =~= fields_free_set(a, ms, bs) + fields_free_set(
            b,
            ms,
            bs,
        ));
    }
}

proof fn lemma_fields_free_split(
    view: Seq<SpecBinding>,
    i: int,
    ms: Set<Seq<char>>,
    bs: Set<Seq<char>>,
    fields: Seq<Binding>,
)
    requires
        view == bindings_view(fields),
        0 <= i < fields.len(),
    ensures
        fields_free_set(bindings_view(fields.take(i + 1)), ms, bs) == fields_free_set(
            bindings_view(fields.take(i)),
            ms,
            bs,
        ) + free_set(fields[i].value@, ms, bs),
        fields_free_set(view, ms, bs) == fields_free_set(bindings_view(fields.take(i + 1)), ms, bs)
            + fields_free_set(bindings_view(fields.skip(i + 1)), ms, bs),
{
    lemma_bindings_view_len(fields);
    lemma_bindings_view_take_skip(fields, i);
    lemma_bindings_view_take_skip(fields, i + 1);
    let t = bindings_view(fields.take(i));
    let one = seq![fields[i]@];
    assert(bindings_view(fields.take(i + 1)) =~= t + one) by {
        assert(bindings_view(fields).take(i + 1) =~= bindings_view(fields).take(i) + seq![
            bindings_view(fields)[i],
        ]);
    }
    lemma_fields_free_concat(t, one, ms, bs);
    assert(one.drop_first() =~= Seq::<SpecBinding>::empty());
    assert(fields_free_set(one.drop_first(), ms, bs) =~= Set::<Seq<char>>::empty());
    assert(one[0].value == fields[i].value@);
    assert(fields_free_set(one, ms, bs) =~= free_set(fields[i].value@, ms, bs));
    assert(view =~= bindings_view(fields.take(i + 1)) + bindings_view(fields.skip(i + 1))) by {
        assert(bindings_view(fields) =~= bindings_view(fields).take(i + 1) + bindings_view(
            fields,
        ).skip(i + 1));
    }
    lemma_fields_free_concat(bindings_view(fields.take(i + 1)), bindings_view(fields.skip(i + 1)), ms, bs);
}

/// The names that `body` uses and that neither `params` nor `module` binds,
/// each once.
pub fn free_variables(body: &Expr, module: &Vec<String>, params: &Vec<String>) -> (free: Vec<String>)
    ensures
        strings_view(free@).no_duplicates(),
        strings_view(free@).to_set() == free_set(
            body@,
            strings_view(module@).to_set(),
            strings_view(params@).to_set(),
        ),
{
    let mut free: Vec<String> = Vec::new();
    proof {
        assert(strings_view(free@) =~= Seq::<Seq<char>>::empty());
        assert(Seq::<Seq<char>>::empty().to_set() =~= Set::<Seq<char>>::empty());
    }
    collect_free_variables(body, module, params, &mut free);
    proof {
        assert(Set::<Seq<char>>::empty() + free_set(
            body@,
            strings_view(module@).to_set(),
            strings_view(params@).to_set(),
        ) =~= free_set(body@, strings_view(module@).to_set(), strings_view(params@).to_set()));
    }
    free
}

// ---------------------------------------------------------------------------
// Closure objects in memory.
// ---------------------------------------------------------------------------

/// Where the parts of a closure object lie, in bytes from its start.
pub struct ClosureLayout;

impl ClosureLayout {
    pub const CODE_OFFSET: i32 = 0;
    pub const ARITY_OFFSET: i32 = 8;
    pub const FREE_LEN_OFFSET: i32 = 16;
    pub const APPLIED_LEN_OFFSET: i32 = 24;
    pub const DATA_OFFSET: i32 = 32;
    pub const VALUE_SIZE: i32 = 16;

    /// The size of a closure object that holds `free_len` captured values
    /// and `applied_len` applied arguments.
    pub fn size(free_len: i64, applied_len: i64) -> (r: i64)
        requires
            i64::MIN <= (free_len + applied_len) * 16 + 32 <= i64::MAX,
            i64::MIN <= free_len + applied_len <= i64::MAX,
            i64::MIN <= (free_len + applied_len) * 16 <= i64::MAX,
        ensures
            r == 32 + (free_len + applied_len) * 16,
    {
        Self::DATA_OFFSET as i64 + (free_len + applied_len) * Self::VALUE_SIZE as i64
    }

    /// Where the captured value number `index` lies.
    pub fn free_data_offset(index: i64) -> (r: i32)
        requires
            i64::MIN <= index * 16 <= i64::MAX,
            i32::MIN <= 32 + ((index * 16) as i32) <= i32::MAX,
        ensures
            r == 32 + ((index * 16) as i32),
    {
        Self::DATA_OFFSET + (index * Self::VALUE_SIZE as i64) as i32
    }

    /// Where applied argument number `index` lies, after `free_len` captured
    /// values.
    pub fn applied_data_offset(free_len: i64, index: i64) -> (r: i32)
        requires
            i64::MIN <= free_len + index <= i64::MAX,
            i64::MIN <= (free_len + index) * 16 <= i64::MAX,
            i32::MIN <= 32 + (((free_len + index) * 16) as i32) <= i32::MAX,
        ensures
            r == 32 + (((free_len + index) * 16) as i32),
    {
        Self::DATA_OFFSET + ((free_len + index) * Self::VALUE_SIZE as i64) as i32
    }
}

/// The offset of data slot `slot` (captured values first, then applied
/// arguments) in a closure object.
pub open spec fn slot_offset(slot: int) -> int {
    32 + 16 * slot
}

/// The closure layout is sound for every object whose offsets fit in an
/// `i32`: the slot
/// offsets that the layout functions give are the slot formula, every
/// slot's `(data, tag)` pair lies after the header and inside the object's
/// size, and different slots do not overlap.
pub proof fn law_closure_slots_are_disjoint(free_len: int, applied_len: int, i: int, j: int)
    requires
        0 <= free_len,
        0 <= applied_len,
        32 + 16 * (free_len + applied_len) <= i32::MAX,
        0 <= i < free_len + applied_len,
        0 <= j < free_len + applied_len,
        i != j,
    ensures
        i < free_len ==> 32 + ((i * 16) as i32) == slot_offset(i),
        i >= free_len ==> 32 + (((free_len + (i - free_len)) * 16) as i32) == slot_offset(i),
        32 <= slot_offset(i),
        slot_offset(i) + 16 <= 32 + (free_len + applied_len) * 16,
        slot_offset(i) + 16 <= slot_offset(j) || slot_offset(j) + 16 <= slot_offset(i),
{
}

// ---------------------------------------------------------------------------
// Lambdas: one function per parameter.
// ---------------------------------------------------------------------------
//
// A lambda of `n` parameters compiles to `n` functions ("stages"). Each takes
// an argument and the closure it was called through. Stage `k < n` makes the
// closure for stage `k + 1`: a copy of its own closure with the argument
// appended. Stage `n` reads the captured values and the arguments from its
// closure and evaluates the body.

/// What stage `k < n` does: allocate the closure for stage `k + 1`.
pub struct ThunkPlan {
    /// Bytes to allocate.
    pub size: i64,
    /// Parameters that the new closure still takes.
    pub arity: i64,
    pub free_len: i64,
    pub applied_len: i64,
    /// Offsets of the `(data, tag)` pairs copied from the old closure to the
    /// same place in the new one.
    pub copies: Vec<i32>,
    /// Where the argument goes.
    pub new_arg_offset: i32,
}

/// What the last stage does before it evaluates the body: bind each name to
/// the pair at an offset of its closure, and the last parameter to its
/// argument.
pub struct FinalPlan {
    pub loads: Vec<(String, i32)>,
    pub last_param: String,
}

/// What the code that creates the lambda's value does: allocate the first
/// stage's closure and store each captured value.
pub struct CreationPlan {
    pub size: i64,
    pub arity: i64,
    pub free_len: i64,
    pub stores: Vec<(String, i32)>,
}

pub struct LambdaPlan {
    pub creation: CreationPlan,
    /// Stages `1 ..= n - 1`, in order.
    pub thunks: Vec<ThunkPlan>,
    pub last: FinalPlan,
}

/// The offsets of slots `0 .. count`.
pub open spec fn slot_offsets(count: nat) -> Seq<i32> {
    Seq::new(count, |s: int| slot_offset(s) as i32)
}

pub open spec fn named_slots(names: Seq<Seq<char>>, first: int) -> Seq<(Seq<char>, i32)> {
    Seq::new(names.len(), |i: int| (names[i], slot_offset(first + i) as i32))
}

pub open spec fn named_view(v: Seq<(String, i32)>) -> Seq<(Seq<char>, i32)> {
    v.map_values(|p: (String, i32)| (p.0@, p.1))
}

/// Stage `k` of `n`, with `m` captured values.
pub open spec fn thunk_plan_ok(t: ThunkPlan, n: int, k: int, m: int) -> bool {
    &&& t.size == 32 + (m + k) * 16
    &&& t.arity == n - k
    &&& t.free_len == m
    &&& t.applied_len == k
    &&& t.copies@ == slot_offsets((m + k - 1) as nat)
    &&& t.new_arg_offset == slot_offset(m + k - 1)
}

pub open spec fn lambda_plan_ok(plan: LambdaPlan, params: Seq<Seq<char>>, free: Seq<Seq<char>>) -> bool {
    let n = params.len() as int;
    let m = free.len() as int;
    &&& plan.creation.size == 32 + m * 16
    &&& plan.creation.arity == n
    &&& plan.creation.free_len == m
    &&& named_view(plan.creation.stores@) == named_slots(free, 0)
    &&& plan.thunks@.len() == n - 1
    &&& forall|k: int| 1 <= k < n ==> thunk_plan_ok(#[trigger] plan.thunks@[k - 1], n, k, m)
    &&& named_view(plan.last.loads@) == named_slots(free, 0) + named_slots(params.take(n - 1), m)
    &&& plan.last.last_param@ == params[n - 1]
}

fn named_slots_exec(names: &Vec<String>, count: usize, first: usize, out: &mut Vec<(String, i32)>)
    requires
        count <= names@.len(),
        32 + 16 * (first + count) <= i32::MAX,
    ensures
        named_view(final(out)@) == named_view(old(out)@) + named_slots(
            strings_view(names@).take(count as int),
            first as int,
        ),
{
    let ghost start = named_view(out@);
    let mut i: usize = 0;
    while i < count
        invariant
            i <= count <= names@.len(),
            32 + 16 * (first + count) <= i32::MAX,
            named_view(out@) == start + named_slots(strings_view(names@).take(i as int), first as int),
        decreases count - i,
    {
        let off = ClosureLayout::applied_data_offset(first as i64, i as i64);
        let ghost before = out@;
        out.push((names[i].clone(), off));
        proof {
            assert(named_view(out@) =~= named_view(before).push((names@[i as int]@, off)));
            assert(named_slots(strings_view(names@).take(i + 1), first as int) =~= named_slots(
                strings_view(names@).take(i as int),
                first as int,
            ).push((names@[i as int]@, slot_offset(first + i) as i32)));
        }
        i = i + 1;
    }
}

fn thunk_plan(n: usize, k: usize, m: usize) -> (t: ThunkPlan)
    requires
        1 <= k < n,
        32 + 16 * (m + n) <= i32::MAX,
    ensures
        thunk_plan_ok(t, n as int, k as int, m as int),
{
    let mut copies: Vec<i32> = Vec::new();
    let mut s: usize = 0;
    while s < m + k - 1
        invariant
            s <= m + k - 1,
            1 <= k < n,
            32 + 16 * (m + n) <= i32::MAX,
            copies@ == slot_offsets(s as nat),
        decreases m + k - 1 - s,
    {
        let off = if s < m {
            ClosureLayout::free_data_offset(s as i64)
        } else {
            ClosureLayout::applied_data_offset(m as i64, (s - m) as i64)
        };
        copies.push(off);
        assert(copies@ =~= slot_offsets((s + 1) as nat));
        s = s + 1;
    }
    ThunkPlan {
        size: ClosureLayout::size(m as i64, k as i64),
        arity: (n - k) as i64,
        free_len: m as i64,
        applied_len: k as i64,
        copies,
        new_arg_offset: ClosureLayout::applied_data_offset(m as i64, (k - 1) as i64),
    }
}

/// Plans the stages of a lambda with parameters `params` that captures
/// `free`. A lambda needs at least one parameter.
pub fn lambda_plan(params: &Vec<String>, free: &Vec<String>) -> (r: Result<LambdaPlan, String>)
    requires
        params@.len() >= 1 ==> 32 + 16 * (free@.len() + params@.len()) <= i32::MAX,
    ensures
        match r {
            Ok(plan) => params@.len() >= 1 && lambda_plan_ok(plan, strings_view(params@), strings_view(free@)),
            Err(e) => params@.len() == 0 && e@ == "lambda must have at least one parameter"@,
        },
{
    let n = params.len();
    let m = free.len();
    if n == 0 {
        return Err(String::from_str("lambda must have at least one parameter"));
    }
    let mut stores: Vec<(String, i32)> = Vec::new();
    named_slots_exec(free, m, 0, &mut stores);
    let creation = CreationPlan {
        size: ClosureLayout::size(m as i64, 0),
        arity: n as i64,
        free_len: m as i64,
        stores,
    };
    let mut thunks: Vec<ThunkPlan> = Vec::new();
    let mut k: usize = 1;
    while k < n
        invariant
            1 <= k <= n,
            n == params@.len(),
            m == free@.len(),
            32 + 16 * (m + n) <= i32::MAX,
            thunks@.len() == k - 1,
            forall|j: int| 1 <= j < k ==> thunk_plan_ok(#[trigger] thunks@[j - 1], n as int, j, m as int),
        decreases n - k,
    {
        thunks.push(thunk_plan(n, k, m));
        k = k + 1;
    }
    let mut loads: Vec<(String, i32)> = Vec::new();
    named_slots_exec(free, m, 0, &mut loads);
    named_slots_exec(params, n - 1, m, &mut loads);
    let last = FinalPlan { loads, last_param: params[n - 1].clone() };
    proof {
        assert(strings_view(free@).take(m as int) =~= strings_view(free@));
        assert(named_view(Seq::<(String, i32)>::empty()) =~= Seq::<(Seq<char>, i32)>::empty());
    }
    Ok(LambdaPlan { creation, thunks, last })
}

// ---------------------------------------------------------------------------
// What the stages of a lambda hand to its body.
// ---------------------------------------------------------------------------

/// Memory after each store writes the value of its name at its offset.
pub open spec fn store_all<V>(stores: Seq<(Seq<char>, i32)>, env: spec_fn(Seq<char>) -> V) -> Map<
    int,
    V,
>
    decreases stores.len(),
{
    if stores.len() == 0 {
        Map::empty()
    } else {
        store_all(stores.drop_last(), env).insert(stores.last().1 as int, env(stores.last().0))
    }
}

/// A new object holding, at each of `offsets`, what `from` holds there.
pub open spec fn copy_all<V>(from: Map<int, V>, offsets: Seq<i32>) -> Map<int, V>
    decreases offsets.len(),
{
    if offsets.len() == 0 {
        Map::empty()
    } else {
        copy_all(from, offsets.drop_last()).insert(
            offsets.last() as int,
            from[offsets.last() as int],
        )
    }
}

/// The names bound by loading each name from its offset of `mem`.
pub open spec fn load_all<V>(mem: Map<int, V>, loads: Seq<(Seq<char>, i32)>) -> Map<Seq<char>, V>
    decreases loads.len(),
{
    if loads.len() == 0 {
        Map::empty()
    } else {
        load_all(mem, loads.drop_last()).insert(loads.last().0, mem[loads.last().1 as int])
    }
}

/// The closure object that the code of `plan` builds once `k` of the
/// arguments `args` are applied, where `env` gives the captured names'
/// values.
pub open spec fn closure_memory<V>(
    plan: LambdaPlan,
    env: spec_fn(Seq<char>) -> V,
    args: Seq<V>,
    k: nat,
) -> Map<int, V>
    decreases k,
{
    if k == 0 {
        store_all(named_view(plan.creation.stores@), env)
    } else {
        let t = plan.thunks@[k - 1];
        copy_all(closure_memory(plan, env, args, (k - 1) as nat), t.copies@).insert(
            t.new_arg_offset as int,
            args[k - 1],
        )
    }
}

/// The names that the body of a lambda sees once all the arguments `args`
/// are applied through the stages of `plan`.
pub open spec fn body_bindings<V>(plan: LambdaPlan, env: spec_fn(Seq<char>) -> V, args: Seq<V>) -> Map<
    Seq<char>,
    V,
> {
    load_all(
        closure_memory(plan, env, args, (args.len() - 1) as nat),
        named_view(plan.last.loads@),
    ).insert(plan.last.last_param@, args[args.len() - 1])
}

proof fn lemma_store_slots<V>(names: Seq<Seq<char>>, env: spec_fn(Seq<char>) -> V, s: int)
    requires
        32 + 16 * names.len() <= i32::MAX,
        0 <= s < names.len(),
    ensures
        store_all(named_slots(names, 0), env).contains_key(slot_offset(s)),
        store_all(named_slots(names, 0), env)[slot_offset(s)] == env(names[s]),
    decreases names.len(),
{
    let st = named_slots(names, 0);
    assert(st.drop_last() =~= named_slots(names.drop_last(), 0));
    assert(st.last() == (names[names.len() - 1], slot_offset(names.len() - 1) as i32));
    if s < names.len() - 1 {
        lemma_store_slots(names.drop_last(), env, s);
    }
}

proof fn lemma_copy_slots<V>(from: Map<int, V>, count: nat, s: int)
    requires
        32 + 16 * count <= i32::MAX,
        0 <= s < count,
    ensures
        copy_all(from, slot_offsets(count)).contains_key(slot_offset(s)),
        copy_all(from, slot_offsets(count))[slot_offset(s)] == from[slot_offset(s)],
    decreases count,
{
    let offs = slot_offsets(count);
    assert(offs.drop_last() =~= slot_offsets((count - 1) as nat));
    assert(offs.last() == slot_offset(count - 1) as i32);
    if s < count - 1 {
        lemma_copy_slots(from, (count - 1) as nat, s);
    }
}

/// Stage `k` of a lambda finds its captured values and its first `k`
/// arguments in their slots.
proof fn lemma_closure_slots<V>(
    plan: LambdaPlan,
    params: Seq<Seq<char>>,
    free: Seq<Seq<char>>,
    env: spec_fn(Seq<char>) -> V,
    args: Seq<V>,
    k: nat,
    s: int,
)
    requires
        lambda_plan_ok(plan, params, free),
        32 + 16 * (free.len() + params.len()) <= i32::MAX,
        k < params.len(),
        args.len() == params.len(),
        0 <= s < free.len() + k,
    ensures
        closure_memory(plan, env, args, k).contains_key(slot_offset(s)),
        closure_memory(plan, env, args, k)[slot_offset(s)] == if s < free.len() {
            env(free[s])
        } else {
            args[s - free.len()]
        },
    decreases k,
{
    let m = free.len() as int;
    let n = params.len() as int;
    if k == 0 {
        lemma_store_slots(free, env, s);
    } else {
        let t = plan.thunks@[k - 1];
        assert(thunk_plan_ok(t, n, k as int, m));
        let prev = closure_memory(plan, env, args, (k - 1) as nat);
        if s < m + k - 1 {
            lemma_copy_slots(prev, (m + k - 1) as nat, s);
            lemma_closure_slots(plan, params, free, env, args, (k - 1) as nat, s);
        }
    }
}

proof fn lemma_load_names<V>(mem: Map<int, V>, loads: Seq<(Seq<char>, i32)>, i: int)
    requires
        loads.map_values(|p: (Seq<char>, i32)| p.0).no_duplicates(),
        0 <= i < loads.len(),
    ensures
        load_all(mem, loads).contains_key(loads[i].0),
        load_all(mem, loads)[loads[i].0] == mem[loads[i].1 as int],
    decreases loads.len(),
{
    let names = loads.map_values(|p: (Seq<char>, i32)| p.0);
    if i < loads.len() - 1 {
        assert(names[i] != names[loads.len() - 1]);
        let front = loads.drop_last();
        assert(front.map_values(|p: (Seq<char>, i32)| p.0) =~= names.drop_last());
        lemma_load_names(mem, front, i);
    }
}

/// Applying the stages of a lambda to all its arguments, one at a time,
/// hands its body each captured name bound to its value where the lambda
/// was made and each parameter bound to its argument. Parameters and
/// captured names are taken to be distinct, as the names a lambda captures
/// are those it uses and does not bind.
pub proof fn law_stages_bind_parameters<V>(
    plan: LambdaPlan,
    params: Seq<Seq<char>>,
    free: Seq<Seq<char>>,
    env: spec_fn(Seq<char>) -> V,
    args: Seq<V>,
)
    requires
        lambda_plan_ok(plan, params, free),
        params.len() >= 1,
        32 + 16 * (free.len() + params.len()) <= i32::MAX,
        (free + params).no_duplicates(),
        args.len() == params.len(),
    ensures
        forall|i: int|
            0 <= i < free.len() ==> body_bindings(plan, env, args).contains_key(#[trigger] free[i])
                && body_bindings(plan, env, args)[free[i]] == env(free[i]),
        forall|j: int|
            0 <= j < params.len() ==> body_bindings(plan, env, args).contains_key(#[trigger] params[j])
                && body_bindings(plan, env, args)[params[j]] == args[j],
{
    let m = free.len() as int;
    let n = params.len() as int;
    let names = free + params;
    let loads = named_view(plan.last.loads@);
    let mem = closure_memory(plan, env, args, (n - 1) as nat);
    assert(loads =~= named_slots(free, 0) + named_slots(params.take(n - 1), m));
    assert(loads.len() == m + n - 1);
    assert forall|i: int| 0 <= i < m + n - 1 implies #[trigger] loads[i].0 == names[i] && loads[i].1
        as int == slot_offset(i) by {
        if i >= m {
            assert(loads[i] == named_slots(params.take(n - 1), m)[i - m]);
        }
    }
    let load_names = loads.map_values(|p: (Seq<char>, i32)| p.0);
    assert(load_names =~= names.take(m + n - 1));
    assert(load_names.no_duplicates()) by {
        assert forall|a: int, b: int| 0 <= a < b < load_names.len() implies load_names[a]
            != load_names[b] by {
            assert(load_names[a] == names[a] && load_names[b] == names[b]);
        }
    }
    assert(plan.last.last_param@ == names[m + n - 1]);
    assert forall|i: int| 0 <= i < m implies body_bindings(plan, env, args).contains_key(
        #[trigger] free[i],
    ) && body_bindings(plan, env, args)[free[i]] == env(free[i]) by {
        assert(names[i] == free[i]);
        assert(names[i] != names[m + n - 1]);
        lemma_load_names(mem, loads, i);
        lemma_closure_slots(plan, params, free, env, args, (n - 1) as nat, i);
    }
    assert forall|j: int| 0 <= j < n implies body_bindings(plan, env, args).contains_key(
        #[trigger] params[j],
    ) && body_bindings(plan, env, args)[params[j]] == args[j] by {
        assert(names[m + j] == params[j]);
        if j < n - 1 {
            assert(names[m + j] != names[m + n - 1]);
            lemma_load_names(mem, loads, m + j);
            lemma_closure_slots(plan, params, free, env, args, (n - 1) as nat, m + j);
        }
    }
}

// ---------------------------------------------------------------------------
// Module-level names.
// ---------------------------------------------------------------------------

/// What a name bound at module level stands for.
#[derive(Clone, Copy, Debug, PartialEq, Eq, Structural)]
pub enum ModuleBinding {
    /// A type constructor: applying it gives its argument.
    TypeConstructor,
    /// A function that the runtime provides.
    Function,
}

/// Binds the imported names, in order; only `std`'s `echo` is supported.
pub open spec fn module_imports(
    module: Seq<char>,
    names: Seq<Seq<char>>,
    acc: Seq<(Seq<char>, ModuleBinding)>,
) -> Result<Seq<(Seq<char>, ModuleBinding)>, Seq<char>>
    decreases names.len(),
{
    if names.len() == 0 {
        Ok(acc)
    } else if module == "std"@ && names[0] == "echo"@ {
        module_imports(module, names.drop_first(), acc.push((names[0], ModuleBinding::Function)))
    } else {
        Err("unsupported import "@ + names[0] + " from "@ + module)
    }
}

pub open spec fn module_uses(
    imports: Seq<(Seq<char>, Seq<Seq<char>>)>,
    acc: Seq<(Seq<char>, ModuleBinding)>,
) -> Result<Seq<(Seq<char>, ModuleBinding)>, Seq<char>>
    decreases imports.len(),
{
    if imports.len() == 0 {
        Ok(acc)
    } else {
        match module_imports(imports[0].0, imports[0].1, acc) {
            Ok(acc2) => module_uses(imports.drop_first(), acc2),
            Err(e) => Err(e),
        }
    }
}

pub open spec fn module_types(bs: Seq<SpecBinding>, acc: Seq<(Seq<char>, ModuleBinding)>) -> Seq<
    (Seq<char>, ModuleBinding),
> {
    acc + Seq::new(bs.len(), |i: int| (bs[i].name, ModuleBinding::TypeConstructor))
}

/// The module-level names of a program: its imports and its type
/// constructors, in order of appearance.
pub open spec fn module_names_of(blocks: Seq<SpecBlock>, acc: Seq<(Seq<char>, ModuleBinding)>) -> Result<
    Seq<(Seq<char>, ModuleBinding)>,
    Seq<char>,
>
    decreases blocks.len(),
{
    if blocks.len() == 0 {
        Ok(acc)
    } else {
        match blocks[0] {
            SpecBlock::Use(imports) => match module_uses(imports, acc) {
                Ok(acc2) => module_names_of(blocks.drop_first(), acc2),
                Err(e) => Err(e),
            },
            SpecBlock::Type(bs) => module_names_of(blocks.drop_first(), module_types(bs, acc)),
            _ => module_names_of(blocks.drop_first(), acc),
        }
    }
}

pub open spec fn module_view(v: Seq<(String, ModuleBinding)>) -> Seq<(Seq<char>, ModuleBinding)> {
    v.map_values(|p: (String, ModuleBinding)| (p.0@, p.1))
}

proof fn lemma_module_view_push(v: Seq<(String, ModuleBinding)>, p: (String, ModuleBinding))
    ensures
        module_view(v.push(p)) == module_view(v).push((p.0@, p.1)),
{
    assert(module_view(v.push(p)) =~= module_view(v).push((p.0@, p.1)));
}

/// The names that the `use` and type blocks of `ast` bind at module level.
pub fn module_bindings(ast: &Ast) -> (r: Result<Vec<(String, ModuleBinding)>, String>)
    ensures
        match r {
            Ok(v) => module_names_of(ast@, Seq::empty()) == Ok::<_, Seq<char>>(module_view(v@)),
            Err(e) => module_names_of(ast@, Seq::empty()) == Err::<Seq<(Seq<char>, ModuleBinding)>, _>(e@),
        },
{
    let mut acc: Vec<(String, ModuleBinding)> = Vec::new();
    let ghost whole = module_names_of(ast@, Seq::empty());
    let blocks = &ast.0;
    let mut i: usize = 0;
    proof {
        assert(ast@.skip(0) =~= ast@);
        assert(module_view(acc@) =~= Seq::<(Seq<char>, ModuleBinding)>::empty());
    }
    while i < blocks.len()
        invariant
            i <= blocks@.len(),
            ast@ == blocks@.map_values(|b: Block| b@),
            whole == module_names_of(ast@.skip(i as int), module_view(acc@)),
            whole == module_names_of(ast@, Seq::empty()),
        decreases blocks@.len() - i,
    {
        proof {
            assert(ast@.skip(i as int)[0] == blocks@[i as int]@);
            assert(ast@.skip(i as int).drop_first() =~= ast@.skip(i + 1));
        }
        match &blocks[i] {
            Block::Use(b) => {
                let ghost imports = b.imports@.map_values(|x: Import| (x.module@, strings_view(x.names@)));
                let ghost uses_whole = module_uses(imports, module_view(acc@));
                let mut j: usize = 0;
                proof {
                    assert(imports.skip(0) =~= imports);
                }
                while j < b.imports.len()
                    invariant
                        j <= b.imports@.len(),
                        imports == b.imports@.map_values(|x: Import| (x.module@, strings_view(x.names@))),
                        uses_whole == module_uses(imports.skip(j as int), module_view(acc@)),
                        whole == match uses_whole {
                            Ok(acc2) => module_names_of(ast@.skip(i + 1), acc2),
                            Err(e) => Err(e),
                        },
                        whole == module_names_of(ast@, Seq::empty()),
                        ast@ == blocks@.map_values(|b: Block| b@),
                    decreases b.imports@.len() - j,
                {
                    let import = &b.imports[j];
                    let ghost names = strings_view(import.names@);
                    let ghost names_whole = module_imports(import.module@, names, module_view(acc@));
                    proof {
                        assert(imports.skip(j as int)[0] == (import.module@, names));
                        assert(imports.skip(j as int).drop_first() =~= imports.skip(j + 1));
                        assert(names.skip(0) =~= names);
                    }
                    let mut k: usize = 0;
                    while k < import.names.len()
                        invariant
                            k <= import.names@.len(),
                            names == strings_view(import.names@),
                            names_whole == module_imports(import.module@, names.skip(k as int), module_view(acc@)),
                            uses_whole == match names_whole {
                                Ok(acc2) => module_uses(imports.skip(j + 1), acc2),
                                Err(e) => Err(e),
                            },
                            whole == match uses_whole {
                                Ok(acc2) => module_names_of(ast@.skip(i + 1), acc2),
                                Err(e) => Err(e),
                            },
                            whole == module_names_of(ast@, Seq::empty()),
                            ast@ == blocks@.map_values(|b: Block| b@),
                            imports == b.imports@.map_values(|x: Import| (x.module@, strings_view(x.names@))),
                        decreases import.names@.len() - k,
                    {
                        proof {
                            assert(names.skip(k as int)[0] == import.names@[k as int]@);
                            assert(names.skip(k as int).drop_first() =~= names.skip(k + 1));
                        }
                        let name = &import.names[k];
                        if import.module == String::from_str("std") && *name == String::from_str("echo") {
                            let ghost before = acc@;
                            acc.push((name.clone(), ModuleBinding::Function));
                            proof {
                                lemma_module_view_push(before, (*name, ModuleBinding::Function));
                            }
                        } else {
                            let mut m = String::from_str("unsupported import ");
                            m.append(name.as_str());
                            m.append(" from ");
                            m.append(import.module.as_str());
                            return Err(m);
                        }
                        k = k + 1;
                    }
                    proof {
                        assert(names.skip(k as int) =~= Seq::<Seq<char>>::empty());
                    }
                    j = j + 1;
                }
                proof {
                    assert(imports.skip(j as int) =~= Seq::<(Seq<char>, Seq<Seq<char>>)>::empty());
                }
            },
            Block::Type(b) => {
                let ghost start = module_view(acc@);
                let mut j: usize = 0;
                while j < b.bindings.len()
                    invariant
                        j <= b.bindings@.len(),
                        module_view(acc@) == module_types(bindings_view(b.bindings@.take(j as int)), start),
                    decreases b.bindings@.len() - j,
                {
                    let ghost before = acc@;
                    acc.push((b.bindings[j].name.clone(), ModuleBinding::TypeConstructor));
                    proof {
                        lemma_module_view_push(before, (b.bindings@[j as int].name, ModuleBinding::TypeConstructor));
                        lemma_bindings_view_take_skip(b.bindings@, j as int);
                        lemma_bindings_view_take_skip(b.bindings@, j + 1);
                        lemma_bindings_view_len(b.bindings@);
                        assert(module_types(bindings_view(b.bindings@.take(j + 1)), start) =~= module_types(
                            bindings_view(b.bindings@.take(j as int)),
                            start,
                        ).push((b.bindings@[j as int].name@, ModuleBinding::TypeConstructor)));
                    }
                    j = j + 1;
                }
                proof {
                    assert(b.bindings@.take(j as int) =~= b.bindings@);
                }
            },
            _ => {},
        }
        i = i + 1;
    }
    proof {
        assert(ast@.skip(i as int) =~= Seq::<SpecBlock>::empty());
    }
    Ok(acc)
}

/// What `name` stands for at module level, if anything: its latest binding.
pub fn module_lookup(module: &Vec<(String, ModuleBinding)>, name: &String) -> (r: Option<ModuleBinding>)
    ensures
        r == module_find(module_view(module@), name@),
{
    let mut i = module.len();
    proof {
        assert(module_view(module@).take(i as int) =~= module_view(module@));
    }
    while i > 0
        invariant
            i <= module@.len(),
            module_find(module_view(module@), name@) == module_find(module_view(module@).take(i as int), name@),
        decreases i,
    {
        proof {
            assert(module_view(module@).take(i as int).drop_last() =~= module_view(module@).take(i - 1));
        }
        if module[i - 1].0 == *name {
            return Some(module[i - 1].1);
        }
        i = i - 1;
    }
    None
}

/// The latest binding of `name`.
pub open spec fn module_find(v: Seq<(Seq<char>, ModuleBinding)>, name: Seq<char>) -> Option<ModuleBinding>
    decreases v.len(),
{
    if v.len() == 0 {
        None
    } else if v.last().0 == name {
        Some(v.last().1)
    } else {
        module_find(v.drop_last(), name)
    }
}

// ---------------------------------------------------------------------------
// What an expression of the main function refuses.
// ---------------------------------------------------------------------------

/// The value of a number literal, or the error "invalid number: …".
pub fn number_constant(text: &String) -> (r: Result<i64, String>)
    ensures
        match crate::text::spec_parse_i64(text@) {
            Some(n) => r == Ok::<i64, String>(n),
            None => r matches Err(m) && m@ == "invalid number: "@ + text@,
        },
{
    match crate::text::parse_i64(text) {
        Some(n) => Ok(n),
        None => {
            let mut m = String::from_str("invalid number: ");
            m.append(text.as_str());
            Err(m)
        },
    }
}

/// The error for a module-level name used without an argument.
pub fn unapplied_module_name(name: &String, binding: ModuleBinding) -> (m: String)
    ensures
        m@ == match binding {
            ModuleBinding::TypeConstructor => "type constructor "@ + name@
                + " must be applied to an argument"@,
            ModuleBinding::Function => "function "@ + name@ + " must be applied to an argument"@,
        },
{
    let mut m = match binding {
        ModuleBinding::TypeConstructor => String::from_str("type constructor "),
        ModuleBinding::Function => String::from_str("function "),
    };
    m.append(name.as_str());
    m.append(" must be applied to an argument");
    m
}

/// The error for a name that nothing binds.
pub fn undefined_identifier(name: &String) -> (m: String)
    ensures
        m@ == "undefined identifier: "@ + name@,
{
    let mut m = String::from_str("undefined identifier: ");
    m.append(name.as_str());
    m
}

} // verus!
