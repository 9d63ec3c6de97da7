//! The sandbox store: a byte-budgeted cache of sandbox contexts left behind by
//! finished runs, keyed by an identifier and qualified by the init-script that
//! prepared them.
//!
//! Entries are kept in insertion order, oldest first. Each entry records the
//! memory its context used when it was inserted; the accounted total is the
//! sum of those records, and whenever it exceeds the budget the oldest
//! entries are evicted. Taking an entry out with `get` removes it, so a
//! context is never handed to two callers.

use std::collections::VecDeque;
use vstd::prelude::*;

verus! {

/// What the store asks of a context when it is inserted: the size of its
/// memory at that moment.
pub trait MemoryUsage {
    fn memory_consumed(&self) -> usize;
}

/// One cached context with what the store recorded about it.
pub struct ReusableSandboxContext<C> {
    pub id: String,
    pub init_script: Option<String>,
    pub ctx: C,
    pub memory_consumed: usize,
}

/// The mathematical value of a cached entry.
pub struct StoredContext<C> {
    pub id: Seq<char>,
    pub init_script: Option<Seq<char>>,
    pub ctx: C,
    pub bytes: nat,
}

pub open spec fn init_view(s: Option<String>) -> Option<Seq<char>> {
    match s {
        Some(t) => Some(t@),
        None => None,
    }
}

impl<C> ReusableSandboxContext<C> {
    pub open spec fn view(self) -> StoredContext<C> {
        StoredContext {
            id: self.id@,
            init_script: init_view(self.init_script),
            ctx: self.ctx,
            bytes: self.memory_consumed as nat,
        }
    }
}

pub open spec fn entries_view<C>(s: Seq<ReusableSandboxContext<C>>) -> Seq<StoredContext<C>> {
    s.map_values(|e: ReusableSandboxContext<C>| e.view())
}

/// Sum of the recorded sizes.
pub open spec fn accounted<C>(s: Seq<StoredContext<C>>) -> nat
    decreases s.len(),
{
    if s.len() == 0 {
        0
    } else {
        s[0].bytes + accounted(s.drop_first())
    }
}

/// `s` without the entries whose id is `id`, order kept.
pub open spec fn remove_id<C>(s: Seq<StoredContext<C>>, id: Seq<char>) -> Seq<StoredContext<C>>
    decreases s.len(),
{
    if s.len() == 0 {
        s
    } else if s[0].id == id {
        remove_id(s.drop_first(), id)
    } else {
        seq![s[0]] + remove_id(s.drop_first(), id)
    }
}

/// The first entry whose id is `id`.
pub open spec fn find_id<C>(s: Seq<StoredContext<C>>, id: Seq<char>) -> Option<StoredContext<C>>
    decreases s.len(),
{
    if s.len() == 0 {
        None
    } else if s[0].id == id {
        Some(s[0])
    } else {
        find_id(s.drop_first(), id)
    }
}

/// Drops entries from the front until the recorded total is within `budget`.
pub open spec fn trim<C>(s: Seq<StoredContext<C>>, budget: nat) -> Seq<StoredContext<C>>
    decreases s.len(),
{
    if s.len() == 0 || accounted(s) <= budget {
        s
    } else {
        trim(s.drop_first(), budget)
    }
}

/// The budget in force: the limit if one is set, else the largest `usize`.
pub open spec fn budget_of(limit: Option<usize>) -> nat {
    match limit {
        Some(b) => b as nat,
        None => usize::MAX as nat,
    }
}

pub open spec fn ids_unique<C>(s: Seq<StoredContext<C>>) -> bool {
    forall|i: int, j: int| 0 <= i < s.len() && 0 <= j < s.len() && i != j ==> s[i].id != s[j].id
}

/// The entries after inserting `e`: any entry with the same id is unlinked,
/// `e` goes to the back, and the front is trimmed to the budget.
pub open spec fn after_set<C>(
    s: Seq<StoredContext<C>>,
    e: StoredContext<C>,
    budget: nat,
) -> Seq<StoredContext<C>> {
    trim(remove_id(s, e.id).push(e), budget)
}

/// What `get` hands back: the context stored under `id`, if its init-script
/// is `init`.
pub open spec fn lookup<C>(s: Seq<StoredContext<C>>, id: Seq<char>, init: Option<Seq<char>>) -> Option<C> {
    match find_id(s, id) {
        Some(e) => if e.init_script == init {
            Some(e.ctx)
        } else {
            None
        },
        None => None,
    }
}

/// Whether two optional init-scripts are the same (absent equals absent).
pub fn init_scripts_equal(a: &Option<String>, b: &Option<String>) -> (r: bool)
    ensures
        r == (init_view(*a) == init_view(*b)),
{
    match a {
        None => match b {
            Some(_) => false,
            None => true,
        },
        Some(a) => match b {
            Some(b) => a.eq(b),
            None => false,
        },
    }
}

proof fn lemma_accounted_push<C>(s: Seq<StoredContext<C>>, e: StoredContext<C>)
    ensures
        accounted(s.push(e)) == accounted(s) + e.bytes,
    decreases s.len(),
{
    assert(s.push(e)[0] == if s.len() > 0 { s[0] } else { e });
    if s.len() > 0 {
        assert(s.push(e).drop_first() =~= s.drop_first().push(e));
        lemma_accounted_push(s.drop_first(), e);
    } else {
        assert(s.push(e).drop_first() =~= Seq::<StoredContext<C>>::empty());
        assert(accounted(Seq::<StoredContext<C>>::empty()) == 0);
    }
}

proof fn lemma_remove_at<C>(s: Seq<StoredContext<C>>, i: int)
    requires
        ids_unique(s),
        0 <= i < s.len(),
    ensures
        remove_id(s, s[i].id) == s.remove(i),
        find_id(s, s[i].id) == Some(s[i]),
        accounted(s.remove(i)) + s[i].bytes == accounted(s),
    decreases s.len(),
{
    let t = s.drop_first();
    if i == 0 {
        lemma_absent(t, s[0].id);
        assert(s.remove(0) =~= t);
    } else {
        assert(ids_unique(t)) by {
            assert forall|a: int, b: int|
                0 <= a < t.len() && 0 <= b < t.len() && a != b implies t[a].id != t[b].id by {
                assert(t[a] == s[a + 1] && t[b] == s[b + 1]);
            }
        }
        assert(t[i - 1] == s[i]);
        assert(s[0].id != s[i].id);
        lemma_remove_at(t, i - 1);
        assert(s.remove(i) =~= seq![s[0]] + t.remove(i - 1));
        assert(s.remove(i).drop_first() =~= t.remove(i - 1));
    }
}

proof fn lemma_absent<C>(s: Seq<StoredContext<C>>, id: Seq<char>)
    requires
        forall|j: int| 0 <= j < s.len() ==> s[j].id != id,
    ensures
        remove_id(s, id) == s,
        find_id(s, id) is None,
    decreases s.len(),
{
    if s.len() > 0 {
        let t = s.drop_first();
        assert forall|j: int| 0 <= j < t.len() implies t[j].id != id by {
            assert(t[j] == s[j + 1]);
        }
        lemma_absent(t, id);
        assert(seq![s[0]] + t =~= s);
    }
}

proof fn lemma_remove_id_excludes<C>(s: Seq<StoredContext<C>>, id: Seq<char>)
    ensures
        forall|j: int| 0 <= j < remove_id(s, id).len() ==> #[trigger] remove_id(s, id)[j].id != id,
    decreases s.len(),
{
    if s.len() > 0 {
        lemma_remove_id_excludes(s.drop_first(), id);
        if s[0].id != id {
            let r = seq![s[0]] + remove_id(s.drop_first(), id);
            assert forall|j: int| 0 <= j < r.len() implies r[j].id != id by {
                if j > 0 {
                    assert(r[j] == remove_id(s.drop_first(), id)[j - 1]);
                }
            }
        }
    }
}

proof fn lemma_trim_suffix<C>(s: Seq<StoredContext<C>>, budget: nat) -> (k: int)
    ensures
        0 <= k <= s.len(),
        trim(s, budget) == s.subrange(k, s.len() as int),
        accounted(trim(s, budget)) <= budget,
        k > 0 ==> accounted(s.subrange(k - 1, s.len() as int)) > budget,
    decreases s.len(),
{
    if s.len() == 0 || accounted(s) <= budget {
        assert(s.subrange(0, s.len() as int) =~= s);
        0
    } else {
        let k = lemma_trim_suffix(s.drop_first(), budget);
        assert(s.drop_first().subrange(k, s.len() - 1) =~= s.subrange(k + 1, s.len() as int));
        if k > 0 {
            assert(s.drop_first().subrange(k - 1, s.len() - 1) =~= s.subrange(k, s.len() as int));
        } else {
            assert(s.subrange(0, s.len() as int) =~= s);
        }
        k + 1
    }
}

proof fn lemma_trim_push<C>(s: Seq<StoredContext<C>>, e: StoredContext<C>, budget: nat)
    ensures
        trim(s.push(e), budget) == if e.bytes > budget {
            Seq::<StoredContext<C>>::empty()
        } else {
            trim(s, (budget - e.bytes) as nat).push(e)
        },
    decreases s.len(),
{
    let empty = Seq::<StoredContext<C>>::empty();
    lemma_accounted_push(s, e);
    assert(accounted(empty) == 0);
    if s.len() == 0 {
        assert(s.push(e).drop_first() =~= empty);
        assert(trim(empty, budget) == empty);
        assert(trim(s, (budget - e.bytes) as nat) == empty);
    } else {
        assert(s.push(e).drop_first() =~= s.drop_first().push(e));
        lemma_trim_push(s.drop_first(), e, budget);
    }
}

proof fn lemma_unique_suffix<C>(s: Seq<StoredContext<C>>, k: int)
    requires
        ids_unique(s),
        0 <= k <= s.len(),
    ensures
        ids_unique(s.subrange(k, s.len() as int)),
{
    let t = s.subrange(k, s.len() as int);
    assert forall|a: int, b: int|
        0 <= a < t.len() && 0 <= b < t.len() && a != b implies t[a].id != t[b].id by {
        assert(t[a] == s[a + k] && t[b] == s[b + k]);
    }
}

proof fn lemma_view_remove<C>(s: Seq<ReusableSandboxContext<C>>, i: int)
    requires
        0 <= i < s.len(),
    ensures
        entries_view(s.remove(i)) == entries_view(s).remove(i),
{
    assert(entries_view(s.remove(i)) =~= entries_view(s).remove(i));
}

proof fn lemma_find_some<C>(s: Seq<StoredContext<C>>, id: Seq<char>)
    ensures
        find_id(s, id) matches Some(x) ==> exists|j: int| 0 <= j < s.len() && s[j] == x && x.id == id,
    decreases s.len(),
{
    if s.len() > 0 && s[0].id != id {
        let t = s.drop_first();
        lemma_find_some(t, id);
        if let Some(x) = find_id(t, id) {
            let j = choose|j: int| 0 <= j < t.len() && t[j] == x && x.id == id;
            assert(s[j + 1] == x);
        }
    }
}

/// Inserting twice under one id leaves only the later context stored under
/// it: no other entry with that id survives, and the later entry is found
/// whenever it fits the budget on its own.
pub proof fn lemma_set_twice_same_id<C>(
    s: Seq<StoredContext<C>>,
    e1: StoredContext<C>,
    e2: StoredContext<C>,
    budget: nat,
)
    requires
        e1.id == e2.id,
    ensures
        ({
            let r = after_set(after_set(s, e1, budget), e2, budget);
            &&& forall|j: int|
                0 <= j < r.len() && #[trigger] r[j].id == e2.id ==> j == r.len() - 1 && r[j] == e2
            &&& find_id(r, e2.id) is None || find_id(r, e2.id) == Some(e2)
            &&& e2.bytes <= budget ==> find_id(r, e2.id) == Some(e2)
        }),
{
    let s1 = after_set(s, e1, budget);
    let t = remove_id(s1, e2.id);
    let u = t.push(e2);
    let r = after_set(s1, e2, budget);
    lemma_remove_id_excludes(s1, e2.id);
    let k = lemma_trim_suffix(u, budget);
    assert forall|j: int| 0 <= j < r.len() && #[trigger] r[j].id == e2.id implies j == r.len() - 1
        && r[j] == e2 by {
        assert(r[j] == u[j + k]);
        if j + k < t.len() {
            assert(u[j + k] == t[j + k]);
        }
    }
    lemma_find_some(r, e2.id);
    if e2.bytes <= budget {
        lemma_trim_push(t, e2, budget);
        let k2 = lemma_trim_suffix(t, (budget - e2.bytes) as nat);
        let v = t.subrange(k2, t.len() as int);
        assert forall|j: int| 0 <= j < v.len() implies v[j].id != e2.id by {
            assert(v[j] == t[j + k2]);
        }
        lemma_absent(v, e2.id);
        lemma_find_after_absent(v, e2);
    }
}

proof fn lemma_find_none<C>(s: Seq<StoredContext<C>>, id: Seq<char>)
    requires
        find_id(s, id) is None,
    ensures
        forall|j: int| 0 <= j < s.len() ==> s[j].id != id,
    decreases s.len(),
{
    if s.len() > 0 {
        let t = s.drop_first();
        lemma_find_none(t, id);
        assert forall|j: int| 0 <= j < s.len() implies s[j].id != id by {
            if j > 0 {
                assert(s[j] == t[j - 1]);
            }
        }
    }
}

/// The recorded size of the entry stored under `id`, or zero.
pub open spec fn bytes_under<C>(s: Seq<StoredContext<C>>, id: Seq<char>) -> nat {
    match find_id(s, id) {
        Some(e) => e.bytes,
        None => 0,
    }
}

/// Unlinking the entry stored under `id` lowers the total by its recorded
/// size, and by nothing when there is none.
pub proof fn lemma_remove_id_accounted<C>(s: Seq<StoredContext<C>>, id: Seq<char>)
    requires
        ids_unique(s),
    ensures
        accounted(remove_id(s, id)) + bytes_under(s, id) == accounted(s),
{
    lemma_find_some(s, id);
    match find_id(s, id) {
        Some(x) => {
            let j = choose|j: int| 0 <= j < s.len() && s[j] == x && x.id == id;
            lemma_remove_at(s, j);
        },
        None => {
            lemma_find_none(s, id);
            lemma_absent(s, id);
        },
    }
}

proof fn lemma_find_after_absent<C>(s: Seq<StoredContext<C>>, e: StoredContext<C>)
    requires
        find_id(s, e.id) is None,
    ensures
        find_id(s.push(e), e.id) == Some(e),
    decreases s.len(),
{
    if s.len() > 0 {
        assert(s.push(e).drop_first() =~= s.drop_first().push(e));
        lemma_find_after_absent(s.drop_first(), e);
    } else {
        assert(s.push(e)[0] == e);
    }
}

/// An insert that fits the budget evicts nothing, and the new context is
/// then what a `get` with the same id and init-script returns.
pub proof fn lemma_set_then_get<C>(s: Seq<StoredContext<C>>, e: StoredContext<C>, budget: nat)
    requires
        accounted(remove_id(s, e.id)) + e.bytes <= budget,
    ensures
        after_set(s, e, budget) == remove_id(s, e.id).push(e),
        accounted(after_set(s, e, budget)) == accounted(remove_id(s, e.id)) + e.bytes,
        lookup(after_set(s, e, budget), e.id, e.init_script) == Some(e.ctx),
{
    let t = remove_id(s, e.id);
    lemma_accounted_push(t, e);
    assert(trim(t.push(e), budget) == t.push(e));
    lemma_remove_id_excludes(s, e.id);
    assert forall|j: int| 0 <= j < t.len() implies t[j].id != e.id by {
        assert(#[trigger] remove_id(s, e.id)[j].id != e.id);
    }
    lemma_absent(t, e.id);
    lemma_find_after_absent(t, e);
}

/// Taking an entry with a different init-script yields nothing, and nothing
/// stays stored under that id.
pub proof fn lemma_get_mismatch_discards<C>(
    s: Seq<StoredContext<C>>,
    id: Seq<char>,
    init: Option<Seq<char>>,
)
    requires
        find_id(s, id) matches Some(e) && e.init_script != init,
    ensures
        lookup(s, id, init) is None,
        find_id(remove_id(s, id), id) is None,
{
    lemma_remove_id_excludes(s, id);
    lemma_absent(remove_id(s, id), id);
}

/// An insert that would push the total over the budget evicts from the
/// oldest end, no more than needed, and keeps the new entry at the back.
pub proof fn lemma_set_keeps_newest<C>(s: Seq<StoredContext<C>>, e: StoredContext<C>, budget: nat)
    requires
        e.bytes <= budget,
    ensures
        ({
            let t = remove_id(s, e.id);
            let r = after_set(s, e, budget);
            &&& r.len() > 0
            &&& r.last() == e
            &&& accounted(r) <= budget
            &&& exists|k: int|
                0 <= k <= t.len() && r == #[trigger] t.subrange(k, t.len() as int).push(e) && (k > 0
                    ==> accounted(t.subrange(k - 1, t.len() as int)) + e.bytes > budget)
        }),
{
    let t = remove_id(s, e.id);
    lemma_trim_push(t, e, budget);
    lemma_trim_suffix(t.push(e), budget);
    let k = lemma_trim_suffix(t, (budget - e.bytes) as nat);
    assert(after_set(s, e, budget) == t.subrange(k, t.len() as int).push(e));
}

/// The store proper: a budget, the accounted total and the entries, oldest
/// first.
pub struct SandboxStoreCore<C> {
    memory_limit: Option<usize>,
    memory_consumed: usize,
    list: VecDeque<ReusableSandboxContext<C>>,
}

impl<C> SandboxStoreCore<C> {
    /// The entries, oldest first.
    pub closed spec fn view(&self) -> Seq<StoredContext<C>> {
        entries_view(self.list@)
    }

    pub closed spec fn limit(&self) -> Option<usize> {
        self.memory_limit
    }

    /// The accounted total is the sum of the recorded sizes and lies within
    /// the budget, and no two entries share an id.
    pub closed spec fn wf(&self) -> bool {
        &&& self.memory_consumed == accounted(self@)
        &&& ids_unique(self@)
        &&& accounted(self@) <= budget_of(self.memory_limit)
    }

    /// No two entries of a well-formed store share an id.
    pub proof fn lemma_ids_unique(&self)
        requires
            self.wf(),
        ensures
            ids_unique(self@),
    {
    }

    /// At rest, the accounted total lies within the budget.
    pub proof fn lemma_within_budget(&self)
        requires
            self.wf(),
        ensures
            self.limit() matches Some(b) ==> accounted(self@) <= b,
    {
    }

    /// An empty store with the given budget.
    pub fn new(memory_limit: Option<usize>) -> (s: SandboxStoreCore<C>)
        ensures
            s.wf(),
            s@ == Seq::<StoredContext<C>>::empty(),
            s.limit() == memory_limit,
    {
        let s = SandboxStoreCore { memory_limit, memory_consumed: 0, list: VecDeque::new() };
        assert(s@ =~= Seq::<StoredContext<C>>::empty());
        s
    }

    /// The accounted total.
    pub fn memory_consumed(&self) -> (r: usize)
        requires
            self.wf(),
        ensures
            r == accounted(self@),
    {
        self.memory_consumed
    }

    /// The position of the entry with id `id`, if there is one.
    fn position(&self, id: &String) -> (r: Option<usize>)
        requires
            self.wf(),
        ensures
            match r {
                Some(i) => i < self@.len() && self@[i as int].id == id@,
                None => forall|j: int| 0 <= j < self@.len() ==> self@[j].id != id@,
            },
    {
        let mut i: usize = 0;
        while i < self.list.len()
            invariant
                i <= self@.len(),
                self@.len() == self.list@.len(),
                forall|j: int| 0 <= j < i ==> self@[j].id != id@,
            decreases self.list@.len() - i,
        {
            if self.list[i].id == *id {
                return Some(i);
            }
            i = i + 1;
        }
        None
    }

    /// Unlinks the entry with id `id`, if any, and returns it.
    fn take(&mut self, id: &String) -> (r: Option<ReusableSandboxContext<C>>)
        requires
            old(self).wf(),
        ensures
            final(self).wf(),
            final(self).limit() == old(self).limit(),
            final(self)@ == remove_id(old(self)@, id@),
            match r {
                Some(e) => find_id(old(self)@, id@) == Some(e.view()),
                None => find_id(old(self)@, id@) is None,
            },
    {
        match self.position(id) {
            Some(i) => {
                proof {
                    lemma_remove_at(self@, i as int);
                    lemma_view_remove(self.list@, i as int);
                    lemma_unique_suffix(self@.remove(i as int), 0);
                    assert(self@.remove(i as int).subrange(0, self@.len() - 1) =~= self@.remove(
                        i as int,
                    ));
                }
                let e = self.list.remove(i).unwrap();
                self.memory_consumed = self.memory_consumed - e.memory_consumed;
                proof {
                    assert(ids_unique(self@)) by {
                        let t = self@;
                        assert forall|a: int, b: int|
                            0 <= a < t.len() && 0 <= b < t.len() && a != b implies t[a].id
                            != t[b].id by {
                            let o = old(self)@;
                            let a2 = if a < i { a } else { a + 1 };
                            let b2 = if b < i { b } else { b + 1 };
                            assert(t[a] == o[a2] && t[b] == o[b2]);
                        }
                    }
                }
                Some(e)
            },
            None => {
                proof {
                    lemma_absent(self@, id@);
                }
                None
            },
        }
    }

    /// Evicts entries from the front until the accounted total is at most
    /// `target`.
    fn evict_until(&mut self, target: usize)
        requires
            old(self).memory_consumed == accounted(old(self)@),
        ensures
            final(self).memory_consumed == accounted(final(self)@),
            final(self)@ == trim(old(self)@, target as nat),
            final(self).memory_limit == old(self).memory_limit,
    {
        while self.memory_consumed > target
            invariant
                self.memory_consumed == accounted(self@),
                trim(self@, target as nat) == trim(old(self)@, target as nat),
                self.memory_limit == old(self).memory_limit,
            decreases self.list@.len(),
        {
            assert(self@.len() > 0);
            let ghost before = self@;
            let e = self.list.pop_front().unwrap();
            assert(self@ =~= before.drop_first());
            self.memory_consumed = self.memory_consumed - e.memory_consumed;
        }
    }

    /// Takes the entry for `id` out of the store. Its context is returned
    /// when it was prepared by the same init-script (absent matching
    /// absent); otherwise it is dropped. Either way no entry for `id`
    /// remains.
    pub fn get(&mut self, id: &str, init_script: &Option<String>) -> (r: Option<C>)
        requires
            old(self).wf(),
        ensures
            final(self).wf(),
            final(self).limit() == old(self).limit(),
            final(self)@ == remove_id(old(self)@, id@),
            r == lookup(old(self)@, id@, init_view(*init_script)),
            accounted(final(self)@) + bytes_under(old(self)@, id@) == accounted(old(self)@),
    {
        proof {
            lemma_remove_id_accounted(old(self)@, id@);
        }
        let key = id.to_owned();
        match self.take(&key) {
            Some(e) => {
                if init_scripts_equal(&e.init_script, init_script) {
                    Some(e.ctx)
                } else {
                    None
                }
            },
            None => None,
        }
    }

    /// Inserts `ctx` under `id`, measuring its memory size now (the size
    /// depends on the live context, so what holds is stated for whatever size
    /// came back; `set_with_size` states the rest exactly).
    pub fn set(&mut self, id: &str, init_script: Option<String>, ctx: C)
        where C: MemoryUsage,
        requires
            old(self).wf(),
        ensures
            final(self).wf(),
            final(self).limit() == old(self).limit(),
            exists|m: usize|
                final(self)@ == #[trigger] after_set(
                    old(self)@,
                    StoredContext {
                        id: id@,
                        init_script: init_view(init_script),
                        ctx: ctx,
                        bytes: m as nat,
                    },
                    budget_of(old(self).limit()),
                ),
    {
        let memory_consumed = ctx.memory_consumed();
        self.set_with_size(id, init_script, ctx, memory_consumed);
    }

    /// Inserts `ctx` under `id`, recording `memory_consumed` as its size: an
    /// entry already stored under `id` is unlinked, the new entry goes to the
    /// back, and the oldest entries are evicted while the total exceeds the
    /// budget (no budget set means the total must still fit a `usize`).
    pub fn set_with_size(
        &mut self,
        id: &str,
        init_script: Option<String>,
        ctx: C,
        memory_consumed: usize,
    )
        requires
            old(self).wf(),
        ensures
            final(self).wf(),
            final(self).limit() == old(self).limit(),
            final(self)@ == after_set(
                old(self)@,
                StoredContext {
                    id: id@,
                    init_script: init_view(init_script),
                    ctx: ctx,
                    bytes: memory_consumed as nat,
                },
                budget_of(old(self).limit()),
            ),
            accounted(remove_id(old(self)@, id@)) + memory_consumed <= budget_of(old(self).limit())
                ==> accounted(final(self)@) + bytes_under(old(self)@, id@) == accounted(old(self)@)
                + memory_consumed,
    {
        proof {
            lemma_remove_id_accounted(old(self)@, id@);
        }
        let key = id.to_owned();
        let _ = self.take(&key);
        let ghost s1 = self@;
        let entry = ReusableSandboxContext {
            id: key,
            init_script,
            ctx,
            memory_consumed,
        };
        let ghost e = entry.view();
        let budget = match self.memory_limit {
            Some(b) => b,
            None => usize::MAX,
        };
        proof {
            lemma_trim_push(s1, e, budget as nat);
            lemma_remove_id_excludes(old(self)@, id@);
        }
        if memory_consumed > budget {
            self.list = VecDeque::new();
            self.memory_consumed = 0;
            assert(self@ =~= Seq::<StoredContext<C>>::empty());
        } else {
            self.evict_until(budget - memory_consumed);
            let ghost s2 = self@;
            proof {
                let k = lemma_trim_suffix(s1, (budget - memory_consumed) as nat);
                lemma_unique_suffix(s1, k);
                lemma_accounted_push(s2, e);
                assert forall|j: int| 0 <= j < s2.len() implies s2[j].id != e.id by {
                    assert(s2[j] == s1[j + k]);
                }
            }
            self.list.push_back(entry);
            self.memory_consumed = self.memory_consumed + memory_consumed;
            proof {
                assert(self@ =~= s2.push(e));
                let t = self@;
                assert forall|a: int, b: int|
                    0 <= a < t.len() && 0 <= b < t.len() && a != b implies t[a].id != t[b].id by {
                    if a < s2.len() && b < s2.len() {
                        assert(t[a] == s2[a] && t[b] == s2[b]);
                    } else if a < s2.len() {
                        assert(t[a] == s2[a]);
                    } else if b < s2.len() {
                        assert(t[b] == s2[b]);
                    }
                }
            }
        }
        assert(final(self)@ == after_set(old(self)@, e, budget_of(old(self).limit())));
        assert(e == StoredContext {
            id: id@,
            init_script: init_view(init_script),
            ctx: ctx,
            bytes: memory_consumed as nat,
        });
        proof {
            lemma_accounted_push(s1, e);
            if accounted(s1) + memory_consumed <= budget {
                assert(trim(s1.push(e), budget as nat) == s1.push(e));
            }
        }
    }

    /// Replaces the budget and evicts the oldest entries until the total is
    /// within it.
    pub fn set_memory_limit(&mut self, memory_limit: Option<usize>)
        requires
            old(self).wf(),
        ensures
            final(self).wf(),
            final(self).limit() == memory_limit,
            final(self)@ == trim(old(self)@, budget_of(memory_limit)),
    {
        self.memory_limit = memory_limit;
        self.shrink_to_fit();
    }

    /// Evicts the oldest entries until the total is within the budget.
    fn shrink_to_fit(&mut self)
        requires
            old(self).memory_consumed == accounted(old(self)@),
            ids_unique(old(self)@),
        ensures
            final(self).wf(),
            final(self).limit() == old(self).limit(),
            final(self)@ == trim(old(self)@, budget_of(old(self).limit())),
    {
        let budget = match self.memory_limit {
            Some(b) => b,
            None => usize::MAX,
        };
        self.evict_until(budget);
        proof {
            let k = lemma_trim_suffix(old(self)@, budget as nat);
            lemma_unique_suffix(old(self)@, k);
        }
    }
}

} // verus!
