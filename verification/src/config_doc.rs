//! The config document as a tree of tables, and the edits that saving and removing a
//! provider's API key make to it (`[ai.providers.<provider>] api_key = "..."`).

use vstd::prelude::*;

verus! {

/// A value of the config document, as far as editing API keys reads it.
pub enum ConfigValue {
    /// A table: its entries in order.
    Table(Vec<(String, ConfigValue)>),
    /// A string.
    Text(String),
    /// Any other value (number, boolean, date, array), held by the caller under this number.
    Other(u64),
}

/// The value of the first entry named `k`.
pub open spec fn lookup(e: Seq<(String, ConfigValue)>, k: Seq<char>) -> Option<ConfigValue>
    decreases e.len(),
{
    if e.len() == 0 {
        None
    } else if e[0].0@ == k {
        Some(e[0].1)
    } else {
        lookup(e.drop_first(), k)
    }
}

/// The entries of a table (none for anything else).
pub open spec fn entries_of(v: Option<ConfigValue>) -> Seq<(String, ConfigValue)> {
    match v {
        Some(ConfigValue::Table(e)) => e@,
        _ => Seq::empty(),
    }
}

/// There is an entry and it is not a table.
pub open spec fn not_table(v: Option<ConfigValue>) -> bool {
    match v {
        Some(ConfigValue::Table(_)) => false,
        Some(_) => true,
        None => false,
    }
}

/// Every name but `k` finds the same value in `a` and in `b`.
pub open spec fn same_except(a: Seq<(String, ConfigValue)>, b: Seq<(String, ConfigValue)>, k: Seq<char>) -> bool {
    forall|k2: Seq<char>| k2 != k ==> #[trigger] lookup(b, k2) == lookup(a, k2)
}

/// No name occurs twice among the entries of a table.
pub open spec fn keys_unique(e: Seq<(String, ConfigValue)>) -> bool {
    forall|i: int, j: int| 0 <= i < j < e.len() ==> (#[trigger] e[i]).0@ != (#[trigger] e[j]).0@
}

/// Every table on the way to `[ai.providers.<p>]`, and that table, has each name once.
pub open spec fn path_unique(root: ConfigValue, p: Seq<char>) -> bool {
    &&& keys_unique(root_entries(root))
    &&& keys_unique(ai_entries(root))
    &&& keys_unique(providers_entries(root))
    &&& keys_unique(entries_of(lookup(providers_entries(root), p)))
}

pub open spec fn root_entries(root: ConfigValue) -> Seq<(String, ConfigValue)> {
    entries_of(Some(root))
}

/// The `[ai]` table's entries.
pub open spec fn ai_entries(root: ConfigValue) -> Seq<(String, ConfigValue)> {
    entries_of(lookup(root_entries(root), "ai"@))
}

/// The `[ai.providers]` table's entries.
pub open spec fn providers_entries(root: ConfigValue) -> Seq<(String, ConfigValue)> {
    entries_of(lookup(ai_entries(root), "providers"@))
}

/// Why a key cannot be saved for provider `p`: a value on the way is not a table.
pub open spec fn save_error(root: ConfigValue, p: Seq<char>) -> Option<Seq<char>> {
    if !(root is Table) {
        Some("config root is not a table"@)
    } else if not_table(lookup(root_entries(root), "ai"@)) {
        Some("ai is not a table"@)
    } else if not_table(lookup(ai_entries(root), "providers"@)) {
        Some("ai.providers is not a table"@)
    } else if not_table(lookup(providers_entries(root), p)) {
        Some("provider entry is not a table"@)
    } else {
        None
    }
}

/// `new` is `old` with `[ai.providers.<p>] api_key` set to `key`, tables made where missing,
/// and every other entry on the way left as it was.
pub open spec fn key_saved_in(old: ConfigValue, new: ConfigValue, p: Seq<char>, key: Seq<char>) -> bool {
    &&& new is Table
    &&& same_except(root_entries(old), root_entries(new), "ai"@)
    &&& lookup(root_entries(new), "ai"@) is Some
    &&& lookup(root_entries(new), "ai"@)->0 is Table
    &&& same_except(ai_entries(old), ai_entries(new), "providers"@)
    &&& lookup(ai_entries(new), "providers"@) is Some
    &&& lookup(ai_entries(new), "providers"@)->0 is Table
    &&& same_except(providers_entries(old), providers_entries(new), p)
    &&& lookup(providers_entries(new), p) is Some
    &&& lookup(providers_entries(new), p)->0 is Table
    &&& same_except(
        entries_of(lookup(providers_entries(old), p)),
        entries_of(lookup(providers_entries(new), p)),
        "api_key"@,
    )
    &&& lookup(entries_of(lookup(providers_entries(new), p)), "api_key"@) matches Some(
        ConfigValue::Text(s),
    ) && s@ == key
}

/// Why a provider cannot be removed: a value on the way is not a table.
pub open spec fn remove_error(root: ConfigValue) -> Option<Seq<char>> {
    if !(root is Table) {
        Some("config root is not a table"@)
    } else if not_table(lookup(root_entries(root), "ai"@)) {
        Some("ai is not a table"@)
    } else if not_table(lookup(ai_entries(root), "providers"@)) {
        Some("ai.providers is not a table"@)
    } else {
        None
    }
}

/// There is an `[ai.providers]` table to remove a provider from.
pub open spec fn has_providers_table(root: ConfigValue) -> bool {
    lookup(root_entries(root), "ai"@) is Some && lookup(ai_entries(root), "providers"@) is Some
}

/// `new` is `old` without any `[ai.providers.<p>]` entry, everything else left as it was.
pub open spec fn provider_removed_in(old: ConfigValue, new: ConfigValue, p: Seq<char>) -> bool {
    &&& new is Table
    &&& same_except(root_entries(old), root_entries(new), "ai"@)
    &&& lookup(root_entries(new), "ai"@) is Some
    &&& lookup(root_entries(new), "ai"@)->0 is Table
    &&& same_except(ai_entries(old), ai_entries(new), "providers"@)
    &&& lookup(ai_entries(new), "providers"@) is Some
    &&& lookup(ai_entries(new), "providers"@)->0 is Table
    &&& same_except(providers_entries(old), providers_entries(new), p)
    &&& lookup(providers_entries(new), p) is None
}

// ---------------------------------------------------------------------------
// Lookup lemmas
// ---------------------------------------------------------------------------

/// The first entry named `k` is the one `lookup` finds.
proof fn lemma_lookup_first(e: Seq<(String, ConfigValue)>, k: Seq<char>, i: int)
    requires
        0 <= i <= e.len(),
        forall|j: int| 0 <= j < i ==> (#[trigger] e[j]).0@ != k,
        i < e.len() ==> e[i].0@ == k,
    ensures
        lookup(e, k) == if i < e.len() {
            Some(e[i].1)
        } else {
            None::<ConfigValue>
        },
    decreases e.len(),
{
    if e.len() > 0 && i > 0 {
        assert forall|j: int| 0 <= j < i - 1 implies (#[trigger] e.drop_first()[j]).0@ != k by {
            assert(e.drop_first()[j] == e[j + 1]);
        }
        lemma_lookup_first(e.drop_first(), k, i - 1);
    }
}

/// When no entry is named `k`, `lookup` finds nothing; when it finds nothing, no entry
/// is named `k`.
proof fn lemma_lookup_none(e: Seq<(String, ConfigValue)>, k: Seq<char>)
    ensures
        lookup(e, k) is None <==> forall|j: int| 0 <= j < e.len() ==> (#[trigger] e[j]).0@ != k,
    decreases e.len(),
{
    if e.len() > 0 {
        lemma_lookup_none(e.drop_first(), k);
        if lookup(e, k) is None {
            assert forall|j: int| 0 <= j < e.len() implies (#[trigger] e[j]).0@ != k by {
                if j > 0 {
                    assert(e[j] == e.drop_first()[j - 1]);
                }
            }
        } else if e[0].0@ != k {
            let j = choose|j: int| 0 <= j < e.drop_first().len() && (#[trigger] e.drop_first()[j]).0@ == k;
            assert(e[j + 1] == e.drop_first()[j]);
        }
    }
}

/// Changing the value of entry `i` (keeping its name) changes no other name's lookup.
proof fn lemma_lookup_update_other(e: Seq<(String, ConfigValue)>, i: int, x: (String, ConfigValue), k2: Seq<char>)
    requires
        0 <= i < e.len(),
        x.0@ == e[i].0@,
        k2 != e[i].0@,
    ensures
        lookup(e.update(i, x), k2) == lookup(e, k2),
    decreases e.len(),
{
    if i > 0 {
        assert(e.update(i, x).drop_first() =~= e.drop_first().update(i - 1, x));
        lemma_lookup_update_other(e.drop_first(), i - 1, x, k2);
    } else {
        assert(e.update(i, x).drop_first() =~= e.drop_first());
    }
}

/// Removing an entry named `k` changes no other name's lookup.
proof fn lemma_lookup_remove_other(e: Seq<(String, ConfigValue)>, i: int, k2: Seq<char>)
    requires
        0 <= i < e.len(),
        k2 != e[i].0@,
    ensures
        lookup(e.remove(i), k2) == lookup(e, k2),
    decreases e.len(),
{
    if i > 0 {
        assert(e.remove(i).drop_first() =~= e.drop_first().remove(i - 1));
        lemma_lookup_remove_other(e.drop_first(), i - 1, k2);
    } else {
        assert(e.remove(i) =~= e.drop_first());
    }
}

/// Appending an entry named `k` changes no other name's lookup, and `k` finds it when
/// nothing else had that name.
proof fn lemma_lookup_push(e: Seq<(String, ConfigValue)>, x: (String, ConfigValue), k2: Seq<char>)
    ensures
        k2 != x.0@ ==> lookup(e.push(x), k2) == lookup(e, k2),
        lookup(e, x.0@) is None ==> lookup(e.push(x), x.0@) == Some(x.1),
    decreases e.len(),
{
    if e.len() > 0 {
        assert(e.push(x).drop_first() =~= e.drop_first().push(x));
        lemma_lookup_push(e.drop_first(), x, k2);
    } else {
        assert(e.push(x).drop_first() =~= e);
    }
}

// ---------------------------------------------------------------------------
// Entry edits
// ---------------------------------------------------------------------------

proof fn lemma_unique_remove(e: Seq<(String, ConfigValue)>, i: int)
    requires
        keys_unique(e),
        0 <= i < e.len(),
    ensures
        keys_unique(e.remove(i)),
{
    let r = e.remove(i);
    assert forall|a: int, b: int| 0 <= a < b < r.len() implies (#[trigger] r[a]).0@ != (#[trigger] r[b]).0@ by {
        let a2 = if a < i { a } else { a + 1 };
        let b2 = if b < i { b } else { b + 1 };
        assert(r[a] == e[a2] && r[b] == e[b2]);
    }
}

/// Takes out the first entry named `k`: its place, name and value.
fn take_entry(e: &mut Vec<(String, ConfigValue)>, k: &str) -> (r: Option<(usize, String, ConfigValue)>)
    ensures
        match r {
            Some((i, s, v)) => {
                &&& i < old(e)@.len()
                &&& old(e)@[i as int] == (s, v)
                &&& s@ == k@
                &&& forall|j: int| 0 <= j < i ==> (#[trigger] old(e)@[j]).0@ != k@
                &&& final(e)@ == old(e)@.remove(i as int)
                &&& lookup(old(e)@, k@) == Some(v)
            },
            None => {
                &&& lookup(old(e)@, k@) is None
                &&& final(e)@ == old(e)@
            },
        },
{
    let key = k.to_owned();
    let mut i: usize = 0;
    while i < e.len()
        invariant
            i <= e@.len(),
            e@ == old(e)@,
            key@ == k@,
            forall|j: int| 0 <= j < i ==> (#[trigger] e@[j]).0@ != k@,
        decreases e.len() - i,
    {
        if e[i].0 == key {
            proof {
                lemma_lookup_first(e@, k@, i as int);
            }
            let (s, v) = e.remove(i);
            return Some((i, s, v));
        }
        i = i + 1;
    }
    proof {
        lemma_lookup_first(e@, k@, e@.len() as int);
    }
    None
}

/// Puts an entry named `k` with value `v` back where `take_entry` took one from `orig`,
/// or at the end when it took none.
fn put_entry(
    e: &mut Vec<(String, ConfigValue)>,
    slot: Option<(usize, String)>,
    k: &str,
    v: ConfigValue,
    Ghost(orig): Ghost<Seq<(String, ConfigValue)>>,
)
    requires
        match slot {
            Some((i, s)) => {
                &&& i < orig.len()
                &&& orig[i as int].0 == s
                &&& s@ == k@
                &&& forall|j: int| 0 <= j < i ==> (#[trigger] orig[j]).0@ != k@
                &&& old(e)@ == orig.remove(i as int)
            },
            None => {
                &&& lookup(orig, k@) is None
                &&& old(e)@ == orig
            },
        },
    ensures
        lookup(final(e)@, k@) == Some(v),
        same_except(orig, final(e)@, k@),
        keys_unique(orig) ==> keys_unique(final(e)@),
{
    match slot {
        Some((i, s)) => {
            e.insert(i, (s, v));
            proof {
                let x = (orig[i as int].0, v);
                assert(e@ =~= orig.update(i as int, x));
                assert forall|j: int| 0 <= j < i implies (#[trigger] e@[j]).0@ != k@ by {
                    assert(e@[j] == orig[j]);
                }
                lemma_lookup_first(e@, k@, i as int);
                assert forall|k2: Seq<char>| k2 != k@ implies #[trigger] lookup(e@, k2) == lookup(orig, k2) by {
                    lemma_lookup_update_other(orig, i as int, x, k2);
                }
                if keys_unique(orig) {
                    assert forall|a: int, b: int| 0 <= a < b < e@.len() implies (#[trigger] e@[a]).0@
                        != (#[trigger] e@[b]).0@ by {
                        assert(e@[a].0 == orig[a].0 && e@[b].0 == orig[b].0);
                    }
                }
            }
        },
        None => {
            let ghost before = e@;
            e.push((k.to_owned(), v));
            proof {
                let x = e@.last();
                assert(e@ == before.push(x));
                lemma_lookup_push(before, x, k@);
                assert forall|k2: Seq<char>| k2 != k@ implies #[trigger] lookup(e@, k2) == lookup(orig, k2) by {
                    lemma_lookup_push(before, x, k2);
                }
                lemma_lookup_none(orig, k@);
                if keys_unique(orig) {
                    assert forall|a: int, b: int| 0 <= a < b < e@.len() implies (#[trigger] e@[a]).0@
                        != (#[trigger] e@[b]).0@ by {
                        assert(e@[a] == orig[a]);
                        if b < orig.len() {
                            assert(e@[b] == orig[b]);
                        } else {
                            assert(e@[b] == x);
                        }
                    }
                }
            }
        },
    }
}

/// Removes every entry named `k`.
fn remove_entries(e: &mut Vec<(String, ConfigValue)>, k: &str)
    ensures
        lookup(final(e)@, k@) is None,
        same_except(old(e)@, final(e)@, k@),
        keys_unique(old(e)@) ==> keys_unique(final(e)@),
{
    let ghost orig = e@;
    loop
        invariant
            orig == old(e)@,
            same_except(orig, e@, k@),
            keys_unique(orig) ==> keys_unique(e@),
        decreases e@.len(),
    {
        let ghost before = e@;
        match take_entry(e, k) {
            Some((i, s, v)) => {
                proof {
                    if keys_unique(orig) {
                        lemma_unique_remove(before, i as int);
                    }
                    assert forall|k2: Seq<char>| k2 != k@ implies #[trigger] lookup(e@, k2) == lookup(orig, k2) by {
                        lemma_lookup_remove_other(before, i as int, k2);
                        assert(lookup(before, k2) == lookup(orig, k2));
                    }
                }
            },
            None => {
                return;
            },
        }
    }
}

/// A value's entries when it is a table; `Err(())` when it is something else.
fn into_table(v: Option<ConfigValue>) -> (r: Result<Vec<(String, ConfigValue)>, ()>)
    ensures
        match r {
            Ok(e) => !not_table(v) && e@ == entries_of(v),
            Err(()) => not_table(v),
        },
{
    match v {
        None => Ok(Vec::new()),
        Some(ConfigValue::Table(e)) => Ok(e),
        Some(_) => Err(()),
    }
}

fn slot_of(t: &Option<(usize, String, ConfigValue)>) -> (r: Option<(usize, String)>)
    ensures
        match *t {
            Some((i, s, _)) => r == Some((i, s)),
            None => r is None,
        },
{
    match t {
        Some((i, s, _)) => Some((*i, s.clone())),
        None => None,
    }
}

fn value_of(t: Option<(usize, String, ConfigValue)>) -> (r: Option<ConfigValue>)
    ensures
        match t {
            Some((_, _, v)) => r == Some(v),
            None => r is None,
        },
{
    match t {
        Some((_, _, v)) => Some(v),
        None => None,
    }
}

// ---------------------------------------------------------------------------
// Saving and removing keys
// ---------------------------------------------------------------------------

/// The document with `api_key` stored under `[ai.providers.<provider>]`, the tables on
/// the way made where missing; or the error when a value on the way is not a table.
pub fn set_provider_api_key(root: ConfigValue, provider: &str, api_key: &str) -> (r: Result<
    ConfigValue,
    String,
>)
    ensures
        match save_error(root, provider@) {
            Some(msg) => r matches Err(m) && m@ == msg,
            None => r matches Ok(new) && key_saved_in(root, new, provider@, api_key@) && (
            path_unique(root, provider@) ==> path_unique(new, provider@)),
        },
{
    let ghost old_root = root;
    let mut root_e = match root {
        ConfigValue::Table(e) => e,
        _ => {
            return Err("config root is not a table".to_owned());
        },
    };
    let ghost root0 = root_e@;
    let ai_t = take_entry(&mut root_e, "ai");
    let ai_slot = slot_of(&ai_t);
    let mut ai_e = match into_table(value_of(ai_t)) {
        Ok(e) => e,
        Err(()) => {
            return Err("ai is not a table".to_owned());
        },
    };
    let ghost ai0 = ai_e@;
    let prov_t = take_entry(&mut ai_e, "providers");
    let prov_slot = slot_of(&prov_t);
    let mut providers_e = match into_table(value_of(prov_t)) {
        Ok(e) => e,
        Err(()) => {
            return Err("ai.providers is not a table".to_owned());
        },
    };
    let ghost providers0 = providers_e@;
    let p_t = take_entry(&mut providers_e, provider);
    let p_slot = slot_of(&p_t);
    let mut p_e = match into_table(value_of(p_t)) {
        Ok(e) => e,
        Err(()) => {
            return Err("provider entry is not a table".to_owned());
        },
    };
    let ghost p0 = p_e@;
    let k_t = take_entry(&mut p_e, "api_key");
    let k_slot = slot_of(&k_t);
    let text = ConfigValue::Text(api_key.to_owned());
    put_entry(&mut p_e, k_slot, "api_key", text, Ghost(p0));
    put_entry(&mut providers_e, p_slot, provider, ConfigValue::Table(p_e), Ghost(providers0));
    put_entry(&mut ai_e, prov_slot, "providers", ConfigValue::Table(providers_e), Ghost(ai0));
    put_entry(&mut root_e, ai_slot, "ai", ConfigValue::Table(ai_e), Ghost(root0));
    Ok(ConfigValue::Table(root_e))
}

/// The document without `[ai.providers.<provider>]`; `None` when it has no
/// `[ai.providers]` table (nothing to change); or the error when a value on the way is
/// not a table.
pub fn remove_provider(root: ConfigValue, provider: &str) -> (r: Result<Option<ConfigValue>, String>)
    ensures
        match remove_error(root) {
            Some(msg) => r matches Err(m) && m@ == msg,
            None => if has_providers_table(root) {
                r matches Ok(Some(new)) && provider_removed_in(root, new, provider@) && (
                path_unique(root, provider@) ==> path_unique(new, provider@))
            } else {
                r matches Ok(None)
            },
        },
{
    let mut root_e = match root {
        ConfigValue::Table(e) => e,
        _ => {
            return Err("config root is not a table".to_owned());
        },
    };
    let ghost root0 = root_e@;
    let ai_t = take_entry(&mut root_e, "ai");
    if ai_t.is_none() {
        return Ok(None);
    }
    let ai_slot = slot_of(&ai_t);
    let mut ai_e = match into_table(value_of(ai_t)) {
        Ok(e) => e,
        Err(()) => {
            return Err("ai is not a table".to_owned());
        },
    };
    let ghost ai0 = ai_e@;
    let prov_t = take_entry(&mut ai_e, "providers");
    if prov_t.is_none() {
        return Ok(None);
    }
    let prov_slot = slot_of(&prov_t);
    let mut providers_e = match into_table(value_of(prov_t)) {
        Ok(e) => e,
        Err(()) => {
            return Err("ai.providers is not a table".to_owned());
        },
    };
    remove_entries(&mut providers_e, provider);
    put_entry(&mut ai_e, prov_slot, "providers", ConfigValue::Table(providers_e), Ghost(ai0));
    put_entry(&mut root_e, ai_slot, "ai", ConfigValue::Table(ai_e), Ghost(root0));
    Ok(Some(ConfigValue::Table(root_e)))
}

// ---------------------------------------------------------------------------
// Laws
// ---------------------------------------------------------------------------

/// Removing a provider after saving its key leaves no entry for it, and every other
/// provider, `[ai]` entry and top-level entry as it was before the key was saved.
pub proof fn lemma_remove_undoes_save(
    a: ConfigValue,
    b: ConfigValue,
    c: ConfigValue,
    p: Seq<char>,
    key: Seq<char>,
)
    requires
        key_saved_in(a, b, p, key),
        provider_removed_in(b, c, p),
    ensures
        lookup(providers_entries(c), p) is None,
        same_except(providers_entries(a), providers_entries(c), p),
        same_except(ai_entries(a), ai_entries(c), "providers"@),
        same_except(root_entries(a), root_entries(c), "ai"@),
{
    assert forall|k2: Seq<char>| k2 != p implies #[trigger] lookup(providers_entries(c), k2) == lookup(
        providers_entries(a),
        k2,
    ) by {
        assert(lookup(providers_entries(c), k2) == lookup(providers_entries(b), k2));
    }
    assert forall|k2: Seq<char>| k2 != "providers"@ implies #[trigger] lookup(ai_entries(c), k2)
        == lookup(ai_entries(a), k2) by {
        assert(lookup(ai_entries(c), k2) == lookup(ai_entries(b), k2));
    }
    assert forall|k2: Seq<char>| k2 != "ai"@ implies #[trigger] lookup(root_entries(c), k2)
        == lookup(root_entries(a), k2) by {
        assert(lookup(root_entries(c), k2) == lookup(root_entries(b), k2));
    }
}

/// Saving the same key twice leaves the document as saving it once does.
pub proof fn lemma_save_twice_is_save_once(
    a: ConfigValue,
    b: ConfigValue,
    c: ConfigValue,
    p: Seq<char>,
    key: Seq<char>,
)
    requires
        key_saved_in(a, b, p, key),
        key_saved_in(b, c, p, key),
    ensures
        key_saved_in(a, c, p, key),
{
    let pa = entries_of(lookup(providers_entries(a), p));
    let pb = entries_of(lookup(providers_entries(b), p));
    let pc = entries_of(lookup(providers_entries(c), p));
    assert forall|k2: Seq<char>| k2 != "api_key"@ implies #[trigger] lookup(pc, k2) == lookup(pa, k2) by {
        assert(lookup(pc, k2) == lookup(pb, k2));
    }
    assert forall|k2: Seq<char>| k2 != p implies #[trigger] lookup(providers_entries(c), k2) == lookup(
        providers_entries(a),
        k2,
    ) by {
        assert(lookup(providers_entries(c), k2) == lookup(providers_entries(b), k2));
    }
    assert forall|k2: Seq<char>| k2 != "providers"@ implies #[trigger] lookup(ai_entries(c), k2)
        == lookup(ai_entries(a), k2) by {
        assert(lookup(ai_entries(c), k2) == lookup(ai_entries(b), k2));
    }
    assert forall|k2: Seq<char>| k2 != "ai"@ implies #[trigger] lookup(root_entries(c), k2)
        == lookup(root_entries(a), k2) by {
        assert(lookup(root_entries(c), k2) == lookup(root_entries(b), k2));
    }
}

} // verus!
