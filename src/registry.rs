use vstd::prelude::*;

use crate::policy::{
    entries_view, EntryModel, PolicyEntry, RegValue, ValueModel, AUTOFILL_ADDRESS,
    AUTOFILL_CREDIT_CARD, EXTENSION_LIST, FAVORITES_BAR, HIDE_FIRST_RUN, PASSWORD_MANAGER,
    RESTORE_ON_STARTUP, SEARCH_ENABLED, SEARCH_NAME, SEARCH_URL, SHOW_HOME_BUTTON, SUGGEST_URL,
    TRACKING_PREVENTION,
};

verus! {

/// The policy subtree of the store.
/// `keys` holds the keys that exist: the empty name for the policy key itself,
/// and the name of each of its subkeys. `values` maps (subkey, value name) to the value,
/// with the empty subkey for values of the policy key itself.
pub struct StoreModel {
    pub keys: Set<Seq<char>>,
    pub values: Map<(Seq<char>, Seq<char>), ValueModel>,
}

/// One operation on the store, in the order `apply` and `clean` perform them.
pub enum StoreOp {
    /// Create the policy key if it is absent.
    CreateRoot,
    /// Delete a subkey of the policy key with all its contents; absent is no failure.
    DeleteSubkey(String),
    /// Create the entry's key if needed and set the value.
    SetValue(PolicyEntry),
    /// Delete a value of the policy key; absent is no failure.
    DeleteValue(String),
    /// Delete the policy key when it holds no value and no subkey.
    DeleteRootIfEmpty,
}

pub enum OpModel {
    CreateRoot,
    DeleteSubkey(Seq<char>),
    SetValue(EntryModel),
    DeleteValue(Seq<char>),
    DeleteRootIfEmpty,
}

impl View for StoreOp {
    type V = OpModel;

    open spec fn view(&self) -> OpModel {
        match self {
            StoreOp::CreateRoot => OpModel::CreateRoot,
            StoreOp::DeleteSubkey(n) => OpModel::DeleteSubkey(n@),
            StoreOp::SetValue(e) => OpModel::SetValue(e@),
            StoreOp::DeleteValue(n) => OpModel::DeleteValue(n@),
            StoreOp::DeleteRootIfEmpty => OpModel::DeleteRootIfEmpty,
        }
    }
}

pub open spec fn ops_view(v: Seq<StoreOp>) -> Seq<OpModel> {
    v.map_values(|o: StoreOp| o@)
}

/// The values of `m` that do not lie in subkey `n`.
pub open spec fn drop_subkey(
    m: Map<(Seq<char>, Seq<char>), ValueModel>,
    n: Seq<char>,
) -> Map<(Seq<char>, Seq<char>), ValueModel> {
    Map::new(|k: (Seq<char>, Seq<char>)| m.contains_key(k) && k.0 != n, |k: (Seq<char>, Seq<char>)| m[k])
}

/// The policy key holds no value and no subkey.
pub open spec fn root_empty(s: StoreModel) -> bool {
    &&& forall|c: Seq<char>| #[trigger] s.keys.contains(c) ==> c == Seq::<char>::empty()
    &&& forall|k: (Seq<char>, Seq<char>)| !(#[trigger] s.values.contains_key(k))
}

/// The store after one operation.
pub open spec fn step(s: StoreModel, op: OpModel) -> StoreModel {
    match op {
        OpModel::CreateRoot => StoreModel { keys: s.keys.insert(Seq::empty()), values: s.values },
        OpModel::DeleteSubkey(n) => StoreModel {
            keys: s.keys.remove(n),
            values: drop_subkey(s.values, n),
        },
        OpModel::SetValue(e) => StoreModel {
            keys: s.keys.insert(Seq::empty()).insert(e.subkey),
            values: s.values.insert((e.subkey, e.name), e.value),
        },
        OpModel::DeleteValue(n) => StoreModel {
            keys: s.keys,
            values: s.values.remove((Seq::empty(), n)),
        },
        OpModel::DeleteRootIfEmpty => if s.keys.contains(Seq::empty()) && root_empty(s) {
            StoreModel { keys: s.keys.remove(Seq::empty()), values: s.values }
        } else {
            s
        },
    }
}

/// Whether the operation removes something from the store.
pub open spec fn removes(s: StoreModel, op: OpModel) -> bool {
    match op {
        OpModel::DeleteSubkey(n) => s.keys.contains(n),
        OpModel::DeleteValue(n) => s.values.contains_key((Seq::empty(), n)),
        OpModel::DeleteRootIfEmpty => s.keys.contains(Seq::empty()) && root_empty(s),
        _ => false,
    }
}

/// The store after the operations, in order.
pub open spec fn run(s: StoreModel, ops: Seq<OpModel>) -> StoreModel
    decreases ops.len(),
{
    if ops.len() == 0 {
        s
    } else {
        step(run(s, ops.drop_last()), ops.last())
    }
}

/// The operations that removed something when run in order: what a removal report lists.
pub open spec fn removed(s: StoreModel, ops: Seq<OpModel>) -> Seq<OpModel>
    decreases ops.len(),
{
    if ops.len() == 0 {
        Seq::empty()
    } else {
        let prev = removed(s, ops.drop_last());
        if removes(run(s, ops.drop_last()), ops.last()) {
            prev.push(ops.last())
        } else {
            prev
        }
    }
}

/// The value names of the policy key that this tool owns.
pub open spec fn managed_values() -> Seq<Seq<char>> {
    seq![
        SEARCH_ENABLED@,
        SEARCH_NAME@,
        SEARCH_URL@,
        SUGGEST_URL@,
        RESTORE_ON_STARTUP@,
        SHOW_HOME_BUTTON@,
        FAVORITES_BAR@,
        HIDE_FIRST_RUN@,
        TRACKING_PREVENTION@,
        PASSWORD_MANAGER@,
        AUTOFILL_CREDIT_CARD@,
        AUTOFILL_ADDRESS@,
    ]
}

/// The subkeys of the policy key that this tool owns.
pub open spec fn managed_subkeys() -> Seq<Seq<char>> {
    seq![EXTENSION_LIST@]
}

/// A value that this tool owns: a managed value of the policy key, or any value of a managed subkey.
pub open spec fn owned(k: (Seq<char>, Seq<char>)) -> bool {
    (k.0 == Seq::<char>::empty() && managed_values().contains(k.1)) || managed_subkeys().contains(k.0)
}

pub open spec fn value_deletes(names: Seq<Seq<char>>) -> Seq<OpModel> {
    names.map_values(|n: Seq<char>| OpModel::DeleteValue(n))
}

pub open spec fn subkey_deletes(names: Seq<Seq<char>>) -> Seq<OpModel> {
    names.map_values(|n: Seq<char>| OpModel::DeleteSubkey(n))
}

pub open spec fn value_sets(es: Seq<EntryModel>) -> Seq<OpModel> {
    es.map_values(|e: EntryModel| OpModel::SetValue(e))
}

/// The operations of `apply`: create the policy key, delete each managed list subkey
/// whole, then set each entry in order.
pub open spec fn apply_plan(es: Seq<EntryModel>) -> Seq<OpModel> {
    seq![OpModel::CreateRoot] + subkey_deletes(managed_subkeys()) + value_sets(es)
}

/// The operations of `clean`: delete each managed value, then each managed subkey,
/// then the policy key if nothing is left in it.
pub open spec fn clean_plan() -> Seq<OpModel> {
    value_deletes(managed_values()) + subkey_deletes(managed_subkeys()) + seq![
        OpModel::DeleteRootIfEmpty,
    ]
}

fn push_op(ops: &mut Vec<StoreOp>, op: StoreOp)
    ensures
        ops_view(final(ops)@) == ops_view(old(ops)@).push(op@),
{
    let ghost before = ops@;
    ops.push(op);
    proof {
        assert(ops_view(ops@) =~= ops_view(before).push(op@));
    }
}

/// A copy of an entry.
pub fn copy_entry(e: &PolicyEntry) -> (r: PolicyEntry)
    ensures
        r@ == e@,
{
    let value = match &e.value {
        RegValue::Dword(v) => RegValue::Dword(*v),
        RegValue::Sz(s) => RegValue::Sz(s.clone()),
    };
    PolicyEntry { subkey: e.subkey.clone(), name: e.name.clone(), value }
}

/// The store operations that apply the entries, in order.
pub fn apply(entries: &Vec<PolicyEntry>) -> (r: Vec<StoreOp>)
    ensures
        ops_view(r@) == apply_plan(entries_view(entries@)),
{
    let mut ops: Vec<StoreOp> = Vec::new();
    push_op(&mut ops, StoreOp::CreateRoot);
    push_op(&mut ops, StoreOp::DeleteSubkey(EXTENSION_LIST.to_owned()));
    let ghost head = ops_view(ops@);
    proof {
        assert(head =~= seq![OpModel::CreateRoot] + subkey_deletes(managed_subkeys()));
    }
    let mut i: usize = 0;
    while i < entries.len()
        invariant
            i <= entries.len(),
            ops_view(ops@) == head + value_sets(entries_view(entries@.take(i as int))),
        decreases entries.len() - i,
    {
        push_op(&mut ops, StoreOp::SetValue(copy_entry(&entries[i])));
        proof {
            assert(value_sets(entries_view(entries@.take(i + 1))) =~= value_sets(
                entries_view(entries@.take(i as int)),
            ).push(OpModel::SetValue(entries@[i as int]@)));
        }
        i = i + 1;
    }
    proof {
        assert(entries@.take(i as int) =~= entries@);
    }
    ops
}

/// The store operations that remove what this tool manages, in order.
pub fn clean() -> (r: Vec<StoreOp>)
    ensures
        ops_view(r@) == clean_plan(),
{
    let mut ops: Vec<StoreOp> = Vec::new();
    push_op(&mut ops, StoreOp::DeleteValue(SEARCH_ENABLED.to_owned()));
    push_op(&mut ops, StoreOp::DeleteValue(SEARCH_NAME.to_owned()));
    push_op(&mut ops, StoreOp::DeleteValue(SEARCH_URL.to_owned()));
    push_op(&mut ops, StoreOp::DeleteValue(SUGGEST_URL.to_owned()));
    push_op(&mut ops, StoreOp::DeleteValue(RESTORE_ON_STARTUP.to_owned()));
    push_op(&mut ops, StoreOp::DeleteValue(SHOW_HOME_BUTTON.to_owned()));
    push_op(&mut ops, StoreOp::DeleteValue(FAVORITES_BAR.to_owned()));
    push_op(&mut ops, StoreOp::DeleteValue(HIDE_FIRST_RUN.to_owned()));
    push_op(&mut ops, StoreOp::DeleteValue(TRACKING_PREVENTION.to_owned()));
    push_op(&mut ops, StoreOp::DeleteValue(PASSWORD_MANAGER.to_owned()));
    push_op(&mut ops, StoreOp::DeleteValue(AUTOFILL_CREDIT_CARD.to_owned()));
    push_op(&mut ops, StoreOp::DeleteValue(AUTOFILL_ADDRESS.to_owned()));
    push_op(&mut ops, StoreOp::DeleteSubkey(EXTENSION_LIST.to_owned()));
    push_op(&mut ops, StoreOp::DeleteRootIfEmpty);
    proof {
        assert(ops_view(ops@) =~= clean_plan());
    }
    ops
}

/// The keys that setting the entries creates.
pub open spec fn set_keys(es: Seq<EntryModel>) -> Set<Seq<char>>
    decreases es.len(),
{
    if es.len() == 0 {
        Set::empty()
    } else {
        set_keys(es.drop_last()).insert(Seq::empty()).insert(es.last().subkey)
    }
}

/// The values that setting the entries in order leaves: the last entry for each key wins.
pub open spec fn entries_map(es: Seq<EntryModel>) -> Map<(Seq<char>, Seq<char>), ValueModel>
    decreases es.len(),
{
    if es.len() == 0 {
        Map::empty()
    } else {
        entries_map(es.drop_last()).insert((es.last().subkey, es.last().name), es.last().value)
    }
}

/// The store after `apply` of the entries, in closed form.
pub open spec fn apply_effect(s: StoreModel, es: Seq<EntryModel>) -> StoreModel {
    StoreModel {
        keys: s.keys.insert(Seq::empty()).remove(EXTENSION_LIST@).union(set_keys(es)),
        values: drop_subkey(s.values, EXTENSION_LIST@).union_prefer_right(entries_map(es)),
    }
}

/// The store after the managed values and subkeys are deleted, before the policy key is
/// considered for removal.
pub open spec fn clean_effect(s: StoreModel) -> StoreModel {
    StoreModel {
        keys: s.keys.remove(EXTENSION_LIST@),
        values: Map::new(
            |k: (Seq<char>, Seq<char>)| s.values.contains_key(k) && !owned(k),
            |k: (Seq<char>, Seq<char>)| s.values[k],
        ),
    }
}

proof fn lemma_run_append(s: StoreModel, a: Seq<OpModel>, b: Seq<OpModel>)
    ensures
        run(s, a + b) == run(run(s, a), b),
    decreases b.len(),
{
    if b.len() == 0 {
        assert(a + b =~= a);
    } else {
        assert((a + b).drop_last() =~= a + b.drop_last());
        lemma_run_append(s, a, b.drop_last());
    }
}

proof fn lemma_run_single(s: StoreModel, op: OpModel)
    ensures
        run(s, seq![op]) == step(s, op),
{
    let q = seq![op];
    assert(q.drop_last() =~= Seq::<OpModel>::empty());
    assert(q.last() == op);
    assert(run(s, q.drop_last()) == s);
}

proof fn lemma_run_sets(t: StoreModel, es: Seq<EntryModel>)
    ensures
        run(t, value_sets(es)) == (StoreModel {
            keys: t.keys.union(set_keys(es)),
            values: t.values.union_prefer_right(entries_map(es)),
        }),
    decreases es.len(),
{
    if es.len() == 0 {
        assert(t.keys.union(set_keys(es)) =~= t.keys);
        assert(t.values.union_prefer_right(entries_map(es)) =~= t.values);
    } else {
        assert(value_sets(es).drop_last() =~= value_sets(es.drop_last()));
        lemma_run_sets(t, es.drop_last());
        let r = run(t, value_sets(es));
        assert(r.keys =~= t.keys.union(set_keys(es)));
        assert(r.values =~= t.values.union_prefer_right(entries_map(es)));
    }
}

proof fn lemma_contains_drop_last(names: Seq<Seq<char>>)
    requires
        names.len() > 0,
    ensures
        forall|x: Seq<char>| #[trigger]
            names.contains(x) <==> (names.drop_last().contains(x) || x == names.last()),
{
    let p = names.drop_last();
    assert forall|x: Seq<char>| #[trigger]
        names.contains(x) <==> (p.contains(x) || x == names.last()) by {
        if names.contains(x) {
            let i = choose|i: int| 0 <= i < names.len() && names[i] == x;
            if i < names.len() - 1 {
                assert(p[i] == x);
            }
        }
        if p.contains(x) {
            let i = choose|i: int| 0 <= i < p.len() && p[i] == x;
            assert(names[i] == x);
        }
        if x == names.last() {
            assert(names[names.len() - 1] == x);
        }
    }
}

proof fn lemma_run_value_deletes(t: StoreModel, names: Seq<Seq<char>>)
    ensures
        run(t, value_deletes(names)) == (StoreModel {
            keys: t.keys,
            values: Map::new(
                |k: (Seq<char>, Seq<char>)|
                    t.values.contains_key(k) && !(k.0 == Seq::<char>::empty() && names.contains(
                        k.1,
                    )),
                |k: (Seq<char>, Seq<char>)| t.values[k],
            ),
        }),
    decreases names.len(),
{
    let r = run(t, value_deletes(names));
    if names.len() == 0 {
        assert(r.values =~= Map::new(
            |k: (Seq<char>, Seq<char>)|
                t.values.contains_key(k) && !(k.0 == Seq::<char>::empty() && names.contains(k.1)),
            |k: (Seq<char>, Seq<char>)| t.values[k],
        ));
    } else {
        assert(value_deletes(names).drop_last() =~= value_deletes(names.drop_last()));
        lemma_run_value_deletes(t, names.drop_last());
        lemma_contains_drop_last(names);
        assert(r.values =~= Map::new(
            |k: (Seq<char>, Seq<char>)|
                t.values.contains_key(k) && !(k.0 == Seq::<char>::empty() && names.contains(k.1)),
            |k: (Seq<char>, Seq<char>)| t.values[k],
        ));
    }
}

proof fn lemma_apply_effect(s: StoreModel, es: Seq<EntryModel>)
    ensures
        run(s, apply_plan(es)) == apply_effect(s, es),
{
    let head = seq![OpModel::CreateRoot] + subkey_deletes(managed_subkeys());
    assert(head =~= seq![OpModel::CreateRoot, OpModel::DeleteSubkey(EXTENSION_LIST@)]);
    assert(head.drop_last() =~= seq![OpModel::CreateRoot]);
    assert(head.drop_last().drop_last() =~= Seq::<OpModel>::empty());
    assert(head =~= seq![OpModel::CreateRoot] + seq![OpModel::DeleteSubkey(EXTENSION_LIST@)]);
    lemma_run_append(s, seq![OpModel::CreateRoot], seq![OpModel::DeleteSubkey(EXTENSION_LIST@)]);
    lemma_run_single(s, OpModel::CreateRoot);
    lemma_run_single(step(s, OpModel::CreateRoot), OpModel::DeleteSubkey(EXTENSION_LIST@));
    lemma_run_append(s, head, value_sets(es));
    let mid = run(s, head);
    lemma_run_sets(mid, es);
    let r = run(s, apply_plan(es));
    assert(r.keys =~= apply_effect(s, es).keys);
    assert(r.values =~= apply_effect(s, es).values);
}

proof fn lemma_managed_subkeys()
    ensures
        forall|x: Seq<char>| #[trigger] managed_subkeys().contains(x) <==> x == EXTENSION_LIST@,
{
    assert(managed_subkeys()[0] == EXTENSION_LIST@);
}

proof fn lemma_clean_effect(s: StoreModel)
    ensures
        run(s, clean_plan()) == step(clean_effect(s), OpModel::DeleteRootIfEmpty),
{
    let vd = value_deletes(managed_values());
    let sd = subkey_deletes(managed_subkeys());
    let last = seq![OpModel::DeleteRootIfEmpty];
    assert(clean_plan() =~= (vd + sd) + last);
    lemma_run_append(s, vd + sd, last);
    lemma_run_append(s, vd, sd);
    lemma_run_value_deletes(s, managed_values());
    assert(sd =~= seq![OpModel::DeleteSubkey(EXTENSION_LIST@)]);
    assert(sd.drop_last() =~= Seq::<OpModel>::empty());
    assert(last.drop_last() =~= Seq::<OpModel>::empty());
    lemma_managed_subkeys();
    let x = run(s, vd);
    lemma_run_single(x, OpModel::DeleteSubkey(EXTENSION_LIST@));
    let t = run(s, vd + sd);
    lemma_run_single(t, OpModel::DeleteRootIfEmpty);
    assert(t.keys =~= clean_effect(s).keys);
    assert(t.values =~= clean_effect(s).values);
}

proof fn lemma_run_unchanged(t: StoreModel, ops: Seq<OpModel>)
    requires
        forall|i: int| 0 <= i < ops.len() ==> step(t, #[trigger] ops[i]) == t && !removes(t, ops[i]),
    ensures
        run(t, ops) == t,
        removed(t, ops) == Seq::<OpModel>::empty(),
    decreases ops.len(),
{
    if ops.len() > 0 {
        let p = ops.drop_last();
        assert forall|i: int| 0 <= i < p.len() implies step(t, #[trigger] p[i]) == t && !removes(
            t,
            p[i],
        ) by {
            assert(p[i] == ops[i]);
        }
        lemma_run_unchanged(t, p);
        assert(ops.last() == ops[ops.len() - 1]);
    }
}

proof fn lemma_entries_map_dom(es: Seq<EntryModel>)
    ensures
        forall|k: (Seq<char>, Seq<char>)| #[trigger]
            entries_map(es).contains_key(k) <==> exists|i: int|
                0 <= i < es.len() && es[i].subkey == k.0 && es[i].name == k.1,
    decreases es.len(),
{
    if es.len() > 0 {
        let p = es.drop_last();
        lemma_entries_map_dom(p);
        assert forall|k: (Seq<char>, Seq<char>)| #[trigger]
            entries_map(es).contains_key(k) <==> exists|i: int|
                0 <= i < es.len() && es[i].subkey == k.0 && es[i].name == k.1 by {
            let n = es.len() - 1;
            if entries_map(es).contains_key(k) {
                if k == (es.last().subkey, es.last().name) {
                    assert(es[n].subkey == k.0 && es[n].name == k.1);
                } else {
                    assert(entries_map(p).contains_key(k));
                    let i = choose|i: int| 0 <= i < p.len() && p[i].subkey == k.0 && p[i].name == k.1;
                    assert(es[i].subkey == k.0 && es[i].name == k.1);
                }
            }
            if exists|i: int| 0 <= i < es.len() && es[i].subkey == k.0 && es[i].name == k.1 {
                let i = choose|i: int| 0 <= i < es.len() && es[i].subkey == k.0 && es[i].name == k.1;
                if i < n {
                    assert(p[i].subkey == k.0 && p[i].name == k.1);
                    assert(entries_map(p).contains_key(k));
                }
            }
        }
    }
}

/// Applying the same batch twice leaves the store as applying it once.
pub proof fn apply_is_idempotent(s: StoreModel, es: Seq<EntryModel>)
    ensures
        run(run(s, apply_plan(es)), apply_plan(es)) == run(s, apply_plan(es)),
{
    lemma_apply_effect(s, es);
    let a = run(s, apply_plan(es));
    lemma_apply_effect(a, es);
    let b = run(a, apply_plan(es));
    assert(b.keys =~= a.keys);
    assert(b.values =~= a.values);
}

/// After a second apply, the list subkey holds exactly the names that the second batch
/// puts there: nothing of a longer first list is left.
pub proof fn apply_replaces_list(s: StoreModel, first: Seq<EntryModel>, second: Seq<EntryModel>)
    ensures
        forall|name: Seq<char>|
            #[trigger] run(run(s, apply_plan(first)), apply_plan(second)).values.contains_key(
                (EXTENSION_LIST@, name),
            ) <==> exists|i: int|
                0 <= i < second.len() && second[i].subkey == EXTENSION_LIST@ && second[i].name
                    == name,
{
    let a = run(s, apply_plan(first));
    lemma_apply_effect(a, second);
    lemma_entries_map_dom(second);
}

/// Running `clean` a second time changes nothing and removes nothing.
pub proof fn clean_twice_is_noop(s: StoreModel)
    ensures
        run(run(s, clean_plan()), clean_plan()) == run(s, clean_plan()),
        removed(run(s, clean_plan()), clean_plan()) == Seq::<OpModel>::empty(),
{
    lemma_clean_effect(s);
    lemma_managed_subkeys();
    let u = clean_effect(s);
    let t = run(s, clean_plan());
    let ops = clean_plan();
    assert forall|i: int| 0 <= i < ops.len() implies step(t, #[trigger] ops[i]) == t && !removes(
        t,
        ops[i],
    ) by {
        match ops[i] {
            OpModel::DeleteValue(n) => {
                assert(managed_values()[i] == n);
                assert(owned((Seq::empty(), n)));
                assert(step(t, ops[i]).values =~= t.values);
            },
            OpModel::DeleteSubkey(n) => {
                assert(n == EXTENSION_LIST@);
                assert(step(t, ops[i]).values =~= t.values);
                assert(step(t, ops[i]).keys =~= t.keys);
            },
            OpModel::DeleteRootIfEmpty => {
                assert(t.keys.contains(Seq::empty()) ==> t == u);
            },
            _ => {},
        }
    }
    lemma_run_unchanged(t, ops);
}

/// `clean` deletes every value it owns, and keeps every value and subkey it does not own;
/// the policy key stays while anything it does not own is left in it.
pub proof fn clean_keeps_foreign(s: StoreModel)
    ensures
        forall|k: (Seq<char>, Seq<char>)|
            owned(k) ==> !(#[trigger] run(s, clean_plan()).values.contains_key(k)),
        forall|k: (Seq<char>, Seq<char>)|
            s.values.contains_key(k) && !owned(k) ==> #[trigger] run(
                s,
                clean_plan(),
            ).values.contains_key(k) && run(s, clean_plan()).values[k] == s.values[k],
        forall|c: Seq<char>|
            s.keys.contains(c) && c != Seq::<char>::empty() && !managed_subkeys().contains(c)
                ==> #[trigger] run(s, clean_plan()).keys.contains(c),
        s.keys.contains(Seq::empty()) && (exists|k: (Seq<char>, Seq<char>)|
            s.values.contains_key(k) && !owned(k)) ==> run(s, clean_plan()).keys.contains(
            Seq::empty(),
        ),
{
    lemma_clean_effect(s);
    lemma_managed_subkeys();
    let u = clean_effect(s);
    if s.keys.contains(Seq::empty()) && (exists|k: (Seq<char>, Seq<char>)|
        s.values.contains_key(k) && !owned(k)) {
        let k = choose|k: (Seq<char>, Seq<char>)| s.values.contains_key(k) && !owned(k);
        assert(u.values.contains_key(k));
        reveal_strlit("ExtensionInstallForcelist");
        assert(EXTENSION_LIST@.len() > 0);
        assert(u.keys.contains(Seq::empty()));
    }
}

/// The root-level names of the batch that the higher-priority store also holds, in batch order.
pub open spec fn conflicts(es: Seq<EntryModel>, higher: Seq<Seq<char>>) -> Seq<Seq<char>>
    decreases es.len(),
{
    if es.len() == 0 {
        Seq::empty()
    } else {
        let prev = conflicts(es.drop_last(), higher);
        if es.last().subkey.len() == 0 && higher.contains(es.last().name) {
            prev.push(es.last().name)
        } else {
            prev
        }
    }
}

pub open spec fn names_view(v: Seq<String>) -> Seq<Seq<char>> {
    v.map_values(|s: String| s@)
}

/// How many times `x` occurs in `v`.
pub open spec fn count_of(v: Seq<Seq<char>>, x: Seq<char>) -> nat
    decreases v.len(),
{
    if v.len() == 0 {
        0
    } else {
        count_of(v.drop_last(), x) + if v.last() == x {
            1nat
        } else {
            0nat
        }
    }
}

/// How many root-level entries of the batch are named `x`.
pub open spec fn root_entries_named(es: Seq<EntryModel>, x: Seq<char>) -> nat
    decreases es.len(),
{
    if es.len() == 0 {
        0
    } else {
        root_entries_named(es.drop_last(), x) + if es.last().subkey.len() == 0 && es.last().name
            == x {
            1nat
        } else {
            0nat
        }
    }
}

proof fn lemma_conflict_count(es: Seq<EntryModel>, higher: Seq<Seq<char>>, x: Seq<char>)
    ensures
        count_of(conflicts(es, higher), x) == if higher.contains(x) {
            root_entries_named(es, x)
        } else {
            0
        },
    decreases es.len(),
{
    if es.len() > 0 {
        lemma_conflict_count(es.drop_last(), higher, x);
        let prev = conflicts(es.drop_last(), higher);
        assert(prev.push(es.last().name).drop_last() =~= prev);
    }
}

/// A batch with one root-level entry named `x`, checked against a higher-priority store
/// that holds `x`, reports `x` exactly once.
pub proof fn overlap_reported_once(es: Seq<EntryModel>, higher: Seq<Seq<char>>, x: Seq<char>)
    requires
        higher.contains(x),
        root_entries_named(es, x) == 1,
    ensures
        count_of(conflicts(es, higher), x) == 1,
{
    lemma_conflict_count(es, higher, x);
}

fn contains_name(names: &Vec<String>, n: &String) -> (r: bool)
    ensures
        r == names_view(names@).contains(n@),
{
    let mut i: usize = 0;
    while i < names.len()
        invariant
            i <= names.len(),
            forall|j: int| 0 <= j < i ==> names@[j]@ != n@,
        decreases names.len() - i,
    {
        if names[i].eq(n) {
            assert(names_view(names@)[i as int] == n@);
            return true;
        }
        i = i + 1;
    }
    proof {
        if names_view(names@).contains(n@) {
            let j = choose|j: int| 0 <= j < names@.len() && names_view(names@)[j] == n@;
            assert(names@[j]@ == n@);
        }
    }
    false
}

/// The root-level entry names that the higher-priority store also holds, given the names
/// of the values (integer or text) that store holds.
pub fn check_hklm_conflicts(entries: &Vec<PolicyEntry>, higher: &Vec<String>) -> (r: Vec<String>)
    ensures
        names_view(r@) == conflicts(entries_view(entries@), names_view(higher@)),
{
    let mut out: Vec<String> = Vec::new();
    let mut i: usize = 0;
    proof {
        assert(names_view(out@) =~= Seq::<Seq<char>>::empty());
    }
    while i < entries.len()
        invariant
            i <= entries.len(),
            names_view(out@) == conflicts(entries_view(entries@.take(i as int)), names_view(higher@)),
        decreases entries.len() - i,
    {
        let ghost before = out@;
        let ghost es = entries_view(entries@.take(i + 1));
        proof {
            assert(es.drop_last() =~= entries_view(entries@.take(i as int)));
            assert(es.last() == entries@[i as int]@);
        }
        let e = &entries[i];
        if e.subkey.as_str().is_empty() && contains_name(higher, &e.name) {
            out.push(e.name.clone());
            proof {
                assert(names_view(out@) =~= names_view(before).push(e.name@));
            }
        }
        i = i + 1;
    }
    proof {
        assert(entries@.take(i as int) =~= entries@);
    }
    out
}

} // verus!
