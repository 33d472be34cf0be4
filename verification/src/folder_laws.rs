//! What holds of requests to create, rename, delete and enter what is in a folder.

use vstd::prelude::*;

use crate::paths::joined_path;
use crate::state::{
    bare_name, candidate, directory_created, file_created, item_created, item_deleted, item_renamed,
    Editor, Request,
};
use crate::text::without_trailing;

verus! {

/// `name` is not empty and does not end with a separator.
pub open spec fn proper_name(name: Seq<char>) -> bool {
    name.len() > 0 && name.last() != '/' && name.last() != '\\'
}

/// `s` is `name` with nothing but the character `c` behind it, if anything.
pub open spec fn followed_by(s: Seq<char>, name: Seq<char>, c: char) -> bool {
    &&& name.len() <= s.len()
    &&& name == s.take(name.len() as int)
    &&& forall|i: int| name.len() <= i < s.len() ==> #[trigger] s[i] == c
}

/// The item that the user sees as `shown` is called `name`: behind the name come
/// only backslashes and then slashes.
pub open spec fn called(shown: Seq<char>, name: Seq<char>) -> bool {
    exists|mid: Seq<char>| #[trigger] followed_by(mid, name, '\\') && followed_by(shown, mid, '/')
}

/// Cutting a character off the end forgets how often it stood there.
proof fn lemma_cut(s: Seq<char>, name: Seq<char>, c: char)
    requires
        followed_by(s, name, c),
    ensures
        without_trailing(s, c) == without_trailing(name, c),
    decreases s.len(),
{
    if name.len() < s.len() {
        assert(s.last() == c);
        let front = s.drop_last();
        assert(name =~= front.take(name.len() as int));
        assert forall|i: int| name.len() <= i < front.len() implies #[trigger] front[i] == c by {
            assert(front[i] == s[i]);
        }
        lemma_cut(front, name, c);
    } else {
        assert(s =~= name);
    }
}

proof fn lemma_called(shown: Seq<char>, name: Seq<char>)
    requires
        called(shown, name),
        proper_name(name),
    ensures
        bare_name(shown) == name,
{
    let mid = choose|mid: Seq<char>| #[trigger]
        followed_by(mid, name, '\\') && followed_by(shown, mid, '/');
    lemma_cut(shown, mid, '/');
    lemma_cut(mid, name, '\\');
    if mid.len() > name.len() {
        assert(mid[mid.len() - 1] == '\\');
        assert(mid.last() == '\\');
    } else {
        assert(mid =~= name);
    }
}

/// What the user deletes is what stands in the open folder under the name that is
/// shown. It is what the user would go into, what a rename moves, and what a new
/// file or folder of that name would be.
pub proof fn law_requests_name_the_same_item(e: Editor, name: Seq<char>, other: Seq<char>)
    requires
        proper_name(name),
        proper_name(other),
        name != other,
    ensures
        item_deleted(e, name) == (Request::Trash { path: joined_path(e.path, name), name }),
        candidate(e, name, false) == Some(joined_path(e.path, name)),
        candidate(e, name, true) is None,
        item_renamed(e, name, other) == (Request::Rename {
            from: joined_path(e.path, name),
            to: joined_path(e.path, other),
        }),
        e.sub.len() == 0 ==> {
            &&& file_created(e, name, false) == (Request::CreateFile {
                path: joined_path(e.path, name),
            })
            &&& directory_created(e, name, false) == (Request::CreateDirectory {
                path: joined_path(e.path, name),
            })
        },
{
}

/// Separators behind a name, as a folder may be shown with, do not matter.
pub proof fn law_separators_do_not_matter(
    e: Editor,
    shown: Seq<char>,
    name: Seq<char>,
    new_shown: Seq<char>,
    new_name: Seq<char>,
)
    requires
        called(shown, name),
        called(new_shown, new_name),
        proper_name(name),
        proper_name(new_name),
    ensures
        item_deleted(e, shown) == (Request::Trash { path: joined_path(e.path, name), name }),
        shown != new_shown ==> item_renamed(e, shown, new_shown) == (Request::Rename {
            from: joined_path(e.path, name),
            to: joined_path(e.path, new_name),
        }),
        followed_by(shown, name, '/') ==> candidate(e, shown, false) == Some(
            joined_path(e.path, name),
        ),
{
    lemma_called(shown, name);
    lemma_called(new_shown, new_name);
    if followed_by(shown, name, '/') {
        lemma_cut(shown, name, '/');
    }
}

/// Requests are about the open folder, and nothing else that the editor knows has
/// a part in them: neither the start folder nor what is known of a file.
pub proof fn law_requests_are_about_the_open_folder(
    e: Editor,
    f: Editor,
    name: Seq<char>,
    other: Seq<char>,
    at_file: bool,
)
    requires
        e.path == f.path,
        e.sub.len() == 0 <==> f.sub.len() == 0,
    ensures
        item_deleted(e, name) == item_deleted(f, name),
        item_renamed(e, name, other) == item_renamed(f, name, other),
        candidate(e, name, at_file) == candidate(f, name, at_file),
        file_created(e, name, at_file) == file_created(f, name, at_file),
        directory_created(e, name, at_file) == directory_created(f, name, at_file),
        item_created(e, name, at_file) == item_created(f, name, at_file),
{
}

/// A request that names nothing is refused, and so is a rename to the same name.
pub proof fn law_nameless_requests_are_refused(
    e: Editor,
    shown: Seq<char>,
    other: Seq<char>,
    at_file: bool,
)
    ensures
        called(shown, Seq::empty()) ==> item_deleted(e, shown) == Request::Done(false),
        item_renamed(e, Seq::empty(), other) == Request::Done(false),
        item_renamed(e, other, Seq::empty()) == Request::Done(false),
        item_renamed(e, other, other) == Request::Done(false),
        file_created(e, Seq::empty(), at_file) == Request::Done(false),
        directory_created(e, Seq::empty(), at_file) == Request::Done(false),
{
    if called(shown, Seq::empty()) {
        let mid = choose|mid: Seq<char>| #[trigger]
            followed_by(mid, Seq::empty(), '\\') && followed_by(shown, mid, '/');
        lemma_cut(shown, mid, '/');
        lemma_cut(mid, Seq::empty(), '\\');
        if mid.len() > 0 {
            assert(mid[mid.len() - 1] == '\\');
            assert(mid.last() == '\\');
        }
    }
}

/// Nothing is created within a file.
pub proof fn law_nothing_is_created_within_a_file(e: Editor, name: Seq<char>, at_file: bool)
    requires
        at_file || e.sub.len() > 0,
    ensures
        file_created(e, name, at_file) == Request::Done(false),
        directory_created(e, name, at_file) == Request::Done(false),
        item_created(e, name, at_file) == Request::Done(false),
{
}

/// What is typed with colons behind it names a folder, without them a file.
pub proof fn law_colon_makes_a_folder(e: Editor, name: Seq<char>, typed: Seq<char>)
    requires
        e.sub.len() == 0,
        name.len() > 0,
        name.last() != ':',
        followed_by(typed, name, ':'),
    ensures
        item_created(e, typed, false) == if typed == name {
            Request::CreateFile { path: joined_path(e.path, name) }
        } else {
            Request::CreateDirectory { path: joined_path(e.path, name) }
        },
{
    lemma_cut(typed, name, ':');
    if typed.len() == name.len() {
        assert(typed =~= name);
    } else {
        assert(typed[typed.len() - 1] == ':');
    }
}

} // verus!
