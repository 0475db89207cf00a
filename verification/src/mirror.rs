//! Copying one location into another: the walk goes through the entries of
//! the source directory; a sub-directory is created in the destination when
//! missing and then walked in turn, and a file is copied when the destination
//! has no entry of that name. Nothing that is already there is overwritten.

use vstd::prelude::*;
use crate::text::{owned, push_char, push_str, chars_of};

verus! {

/// The path of `name` inside `base`, as `Path::join` forms it on Unix: an
/// absolute `name` replaces `base`; otherwise a `/` goes between the two
/// unless `base` is empty or already ends in one.
pub open spec fn path_join(base: Seq<char>, name: Seq<char>) -> Seq<char> {
    if name.len() > 0 && name[0] == '/' {
        name
    } else if base.len() == 0 || base.last() == '/' {
        base + name
    } else {
        base.push('/') + name
    }
}

/// The path of `name` inside `base` (see [`path_join`]).
pub fn join_path(base: &str, name: &str) -> (r: String)
    ensures
        r@ == path_join(base@, name@),
{
    let b = chars_of(base);
    let n = chars_of(name);
    if n.len() > 0 && n[0] == '/' {
        return owned(name);
    }
    let mut out = owned(base);
    if b.len() > 0 && b[b.len() - 1] != '/' {
        push_char(&mut out, '/');
    }
    push_str(&mut out, name);
    out
}

/// What the walk does with one entry of the source directory.
#[derive(Debug, Clone, Copy, PartialEq, Eq, Structural)]
pub enum EntryAction {
    /// A directory missing from the destination: create it, then walk it.
    CreateAndDescend,
    /// A directory present in the destination: walk it.
    Descend,
    /// A file missing from the destination: copy it.
    Copy,
    /// Nothing to do: the file is there already, or the entry is neither a
    /// directory nor a file.
    Skip,
}

/// What the walk does with an entry: walk a directory, creating it first
/// when the destination lacks it; copy a file the destination lacks; leave
/// everything else.
pub open spec fn action_for(is_dir: bool, is_file: bool, dest_exists: bool) -> EntryAction {
    if is_dir {
        if dest_exists {
            EntryAction::Descend
        } else {
            EntryAction::CreateAndDescend
        }
    } else if is_file && !dest_exists {
        EntryAction::Copy
    } else {
        EntryAction::Skip
    }
}

/// Decides what to do with one entry of the source directory, given whether
/// it is a directory, whether it is a file, and whether the destination
/// already has an entry of that name (see [`action_for`]).
pub fn entry_action(is_dir: bool, is_file: bool, dest_exists: bool) -> (r: EntryAction)
    ensures
        r == action_for(is_dir, is_file, dest_exists),
{
    if is_dir {
        if dest_exists {
            EntryAction::Descend
        } else {
            EntryAction::CreateAndDescend
        }
    } else if is_file && !dest_exists {
        EntryAction::Copy
    } else {
        EntryAction::Skip
    }
}

/// Synchronising only adds: an entry the destination already has is never
/// created or copied over, so nothing there is replaced, and running the
/// walk again over entries that are all present does nothing but walk into
/// directories.
pub proof fn lemma_present_entries_are_left_alone(is_dir: bool, is_file: bool)
    ensures
        action_for(is_dir, is_file, true) != EntryAction::Copy,
        action_for(is_dir, is_file, true) != EntryAction::CreateAndDescend,
        action_for(is_dir, is_file, true) == (if is_dir {
            EntryAction::Descend
        } else {
            EntryAction::Skip
        }),
{
}

/// After the walk has handled an entry, the destination has an entry of its
/// name whenever the source entry is a directory or a file: a second walk
/// finds it present.
pub proof fn lemma_walk_leaves_entry_present(is_dir: bool, is_file: bool, dest_exists: bool)
    ensures
        (is_dir || is_file) ==> (dest_exists || action_for(is_dir, is_file, dest_exists)
            == EntryAction::CreateAndDescend || action_for(is_dir, is_file, dest_exists)
            == EntryAction::Copy),
{
}

/// Joining keeps the base: for a name that does not start with `/`, the
/// joined path is the base, then a single `/` unless the base is empty or
/// already ends in one, then the name, whatever the base starts with. An
/// absolute name stands alone.
pub proof fn lemma_join_keeps_base(base: Seq<char>, name: Seq<char>)
    ensures
        name.len() > 0 && name[0] == '/' ==> path_join(base, name) == name,
        !(name.len() > 0 && name[0] == '/') ==> {
            let r = path_join(base, name);
            let gap = r.len() - base.len() - name.len();
            &&& r.subrange(0, base.len() as int) == base
            &&& r.subrange(r.len() - name.len(), r.len() as int) == name
            &&& (base.len() == 0 || base.last() == '/') ==> gap == 0
            &&& !(base.len() == 0 || base.last() == '/') ==> gap == 1 && r[base.len() as int] == '/'
        },
{
    let r = path_join(base, name);
    if !(name.len() > 0 && name[0] == '/') {
        if base.len() == 0 || base.last() == '/' {
            assert(r.subrange(0, base.len() as int) =~= base);
            assert(r.subrange(r.len() - name.len(), r.len() as int) =~= name);
        } else {
            assert(r.subrange(0, base.len() as int) =~= base);
            assert(r.subrange(r.len() - name.len(), r.len() as int) =~= name);
        }
    }
}

} // verus!
