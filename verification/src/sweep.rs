use vstd::prelude::*;
use vstd::utf8::encode_utf8;
use crate::ids::{data_store_dir_name, data_store_dir_name_of, data_store_id_of, is_data_store_dir_name, is_uuid_dir_name, shortcut_id_to_data_store_id};
use crate::messengers::BuiltinMessenger;
use crate::shortcuts::{CustomShortcuts, ShortcutView, UserMessengerView, UserMessengers};
use crate::text::str_eq;

verus! {

/// The directory name of the data store of the entry with this id.
pub open spec fn entry_dir_name(id: Seq<char>) -> Seq<char> {
    data_store_dir_name_of(data_store_id_of(encode_utf8(id)))
}

/// The data-store directory name of the entry with this id.
pub fn entry_data_store_dir_name(id: &str) -> (r: String)
    ensures
        r@ == entry_dir_name(id@),
{
    data_store_dir_name(shortcut_id_to_data_store_id(id))
}

/// The directory names of the built-in messengers' data stores.
pub open spec fn builtin_dir_names() -> Seq<Seq<char>> {
    seq![
        data_store_dir_name_of(seq![1u8, 0, 0, 0, 0, 0, 0, 0, 0, 0, 0, 0, 0, 0, 0, 1]),
        data_store_dir_name_of(seq![1u8, 0, 0, 0, 0, 0, 0, 0, 0, 0, 0, 0, 0, 0, 0, 2]),
    ]
}

/// Every data store that belongs to something: the built-in messengers', then
/// those of the shortcuts, then those of the user messengers.
pub open spec fn kept_dir_names(shortcuts: Seq<ShortcutView>, users: Seq<UserMessengerView>) -> Seq<Seq<char>> {
    builtin_dir_names() + shortcuts.map_values(|s: ShortcutView| entry_dir_name(s.id)) + users.map_values(
        |m: UserMessengerView| entry_dir_name(m.id),
    )
}

/// The text of a list of strings.
pub open spec fn names_view(v: Seq<String>) -> Seq<Seq<char>> {
    v.map_values(|s: String| s@)
}

/// The data stores the sweep must leave alone.
pub fn keep_names(shortcuts: &CustomShortcuts, users: &UserMessengers) -> (r: Vec<String>)
    ensures
        names_view(r@) == kept_dir_names(shortcuts@, users@),
{
    let mut r: Vec<String> = Vec::new();
    r.push(data_store_dir_name(BuiltinMessenger::Telegram.data_store_id()));
    r.push(data_store_dir_name(BuiltinMessenger::WhatsApp.data_store_id()));
    let ghost head = names_view(r@);
    assert(head =~= builtin_dir_names());
    let ns = shortcuts.0.len();
    for i in 0..ns
        invariant
            ns == shortcuts@.len(),
            names_view(r@) == head + shortcuts@.take(i as int).map_values(|s: ShortcutView| entry_dir_name(s.id)),
    {
        let ghost before = names_view(r@);
        let n = entry_data_store_dir_name(shortcuts.0[i].id.as_str());
        let ghost nv = n@;
        r.push(n);
        assert(names_view(r@) =~= before.push(nv));
        assert(shortcuts@.take(i + 1) =~= shortcuts@.take(i as int).push(shortcuts@[i as int]));
        assert(shortcuts@.take(i + 1).map_values(|s: ShortcutView| entry_dir_name(s.id)) =~= shortcuts@.take(i as int).map_values(|s: ShortcutView| entry_dir_name(s.id)).push(nv));
    }
    assert(shortcuts@.take(ns as int) =~= shortcuts@);
    let ghost mid = names_view(r@);
    let nu = users.0.len();
    for i in 0..nu
        invariant
            nu == users@.len(),
            names_view(r@) == mid + users@.take(i as int).map_values(|m: UserMessengerView| entry_dir_name(m.id)),
    {
        let ghost before = names_view(r@);
        let n = entry_data_store_dir_name(users.0[i].id.as_str());
        let ghost nv = n@;
        r.push(n);
        assert(names_view(r@) =~= before.push(nv));
        assert(users@.take(i + 1) =~= users@.take(i as int).push(users@[i as int]));
        assert(users@.take(i + 1).map_values(|m: UserMessengerView| entry_dir_name(m.id)) =~= users@.take(i as int).map_values(|m: UserMessengerView| entry_dir_name(m.id)).push(nv));
    }
    assert(users@.take(nu as int) =~= users@);
    r
}

/// An entry of the data-store directory is removed only when it is a directory
/// with a data-store name that no current messenger, shortcut or user messenger
/// owns; anything else there is left alone.
pub open spec fn should_remove_spec(name: Seq<char>, is_dir: bool, keep: Seq<Seq<char>>) -> bool {
    !keep.contains(name) && is_dir && is_uuid_dir_name(name)
}

/// Decides on one entry of the data-store directory; see `should_remove_spec`.
pub fn should_remove_store(name: &str, is_dir: bool, keep: &Vec<String>) -> (r: bool)
    ensures
        r == should_remove_spec(name@, is_dir, names_view(keep@)),
{
    let ghost kv = names_view(keep@);
    let mut i: usize = 0;
    while i < keep.len()
        invariant
            i <= keep@.len(),
            kv == names_view(keep@),
            forall|j: int| 0 <= j < i ==> kv[j] != name@,
        decreases keep.len() - i,
    {
        if str_eq(keep[i].as_str(), name) {
            assert(kv[i as int] == name@);
            return false;
        }
        i = i + 1;
    }
    assert(!kv.contains(name@));
    is_dir && is_data_store_dir_name(name)
}

/// The sweep never removes the data store of an entry that is still there.
pub proof fn lemma_sweep_keeps_current(shortcuts: Seq<ShortcutView>, users: Seq<UserMessengerView>, is_dir: bool)
    ensures
        forall|i: int| 0 <= i < shortcuts.len() ==>
            !should_remove_spec(entry_dir_name(#[trigger] shortcuts[i].id), is_dir, kept_dir_names(shortcuts, users)),
        forall|i: int| 0 <= i < users.len() ==>
            !should_remove_spec(entry_dir_name(#[trigger] users[i].id), is_dir, kept_dir_names(shortcuts, users)),
        forall|i: int| 0 <= i < 2 ==>
            !should_remove_spec(#[trigger] builtin_dir_names()[i], is_dir, kept_dir_names(shortcuts, users)),
{
    let k = kept_dir_names(shortcuts, users);
    let sm = shortcuts.map_values(|s: ShortcutView| entry_dir_name(s.id));
    let um = users.map_values(|m: UserMessengerView| entry_dir_name(m.id));
    assert forall|i: int| 0 <= i < shortcuts.len() implies
        !should_remove_spec(entry_dir_name(#[trigger] shortcuts[i].id), is_dir, k) by {
        assert(k[2 + i] == sm[i]);
    }
    assert forall|i: int| 0 <= i < users.len() implies
        !should_remove_spec(entry_dir_name(#[trigger] users[i].id), is_dir, k) by {
        assert(k[2 + sm.len() + i] == um[i]);
    }
    assert forall|i: int| 0 <= i < 2 implies !should_remove_spec(#[trigger] builtin_dir_names()[i], is_dir, k) by {
        assert(k[i] == builtin_dir_names()[i]);
    }
}

} // verus!
