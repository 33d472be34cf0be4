//! What holds of moving about, and of what is shown.

use vstd::prelude::*;

use crate::ffon::{all_editable, editable, Node};
use crate::level_laws::{levels, levels_all};
use crate::parse::{file_tree, navigated, section_named};
use crate::paths::{extension, joined_path, parent_path, path_extension, same_path};
use crate::settings::{json_members, json_of, json_text, saved_folder, start_folder};
use crate::state::{
    at_start, candidate, configured, ensured, entered, file_view, in_file, left_to, moved, popped,
    pushed, read, restarted, screen_of, setting_changed, shown_path, started, Editor, Ending,
    Screen,
};
use crate::tags::display_text;
use crate::text::{lines_of, without_trailing};
use crate::text_laws::{blank, law_joined_parts, law_trimmed, law_without_trailing};

verus! {

// ---------------------------------------------------------------------------
// Moving about
// ---------------------------------------------------------------------------

/// Nothing is known of the file that is open.
pub open spec fn nothing_known(e: Editor) -> bool {
    &&& e.lines.len() == 0
    &&& e.ending == Ending::Plain
    &&& e.tree.len() == 0
    &&& !e.loaded
}

/// What is known of the open file is the same.
pub open spec fn same_file(a: Editor, b: Editor) -> bool {
    &&& a.lines == b.lines
    &&& a.ending == b.ending
    &&& a.tree == b.tree
    &&& a.loaded == b.loaded
    &&& a.trailing == b.trailing
}

/// What is not about the open folder or file is the same.
pub open spec fn same_rest(a: Editor, b: Editor) -> bool {
    &&& a.root == b.root
    &&& a.refresh == b.refresh
    &&& a.trailing == b.trailing
    &&& a.entries == b.entries
}

/// The editor starts in the folder that it is given, with nothing open, nothing
/// changed and nothing on the timeline.
pub proof fn law_editor_starts_at_home(home: Seq<char>)
    ensures
        started(home).root == home,
        started(home).path == home,
        started(home).sub.len() == 0,
        !started(home).refresh,
        !started(home).trailing,
        started(home).entries.len() == 0,
        nothing_known(started(home)),
        shown_path(started(home)) == home,
{
}

/// Wherever the editor moves to, it knows nothing of the file that was open, and
/// what is not about that file stays. Moving to a path closes the sections that
/// were open.
pub proof fn law_moving_forgets_the_file(e: Editor, path: Seq<char>)
    ensures
        moved(e, path).path == path,
        moved(e, path).sub.len() == 0,
        nothing_known(moved(e, path)),
        same_rest(moved(e, path), e),
        shown_path(moved(e, path)) == path,
        entered(e, path).path == path,
        entered(e, path).sub == e.sub,
        nothing_known(entered(e, path)),
        same_rest(entered(e, path), e),
{
}

/// The editor starts again in the saved folder, where there is one, and otherwise
/// in the start folder that it has; that folder is open then, with nothing known
/// of a file, nothing to refresh and nothing on the timeline.
pub proof fn law_settings_decide_the_start(e: Editor, folder: Seq<char>, config: Seq<char>)
    ensures
        restarted(e, Some(folder)).root == folder,
        restarted(e, None).root == e.root,
        configured(e, None) == restarted(e, None),
        configured(e, Some(config)) == restarted(e, saved_folder(config)),
        forall|saved: Option<Seq<char>>|
            ({
                let now = #[trigger] restarted(e, saved);
                &&& now.path == now.root
                &&& now.sub.len() == 0
                &&& !now.refresh
                &&& now.entries.len() == 0
                &&& now.trailing == e.trailing
                &&& nothing_known(now)
            }),
{
}

/// The saved folder is the text, which must not be empty, that stands under
/// `textEditorPath` in the section `text editor` of the settings.
pub proof fn law_saved_folder(data: Seq<char>, folder: Seq<char>)
    ensures
        saved_folder(data) == Some(folder) <==> {
            &&& json_of(data) is Some
            &&& json_members(json_of(data)->0).contains_key("text editor"@)
            &&& json_members(json_members(json_of(data)->0)["text editor"@]).contains_key(
                "textEditorPath"@,
            )
            &&& json_text(
                json_members(json_members(json_of(data)->0)["text editor"@])["textEditorPath"@],
            ) == Some(folder)
            &&& folder.len() > 0
        },
        forall|root: serde_json::Value|
            json_of(data) == Some(root) ==> saved_folder(data) == #[trigger] start_folder(root),
{
}

/// A new start folder is opened at once and asks to be shown. Any other setting,
/// and the start folder that is set already, change nothing.
pub proof fn law_start_folder_is_set(e: Editor, key: Seq<char>, value: Seq<char>)
    ensures
        key != "textEditorPath"@ || value == e.root ==> setting_changed(e, key, value) == e,
        key == "textEditorPath"@ && value != e.root ==> {
            let now = setting_changed(e, key, value);
            &&& now.root == value
            &&& now.path == value
            &&& now.sub.len() == 0
            &&& now.refresh
            &&& now.trailing == e.trailing
            &&& now.entries == e.entries
            &&& nothing_known(now)
        },
{
}

/// Going into a section puts its name, without the slashes at its end, behind the
/// path that is seen, and changes nothing else. In a folder nothing changes before
/// the entry is known to exist.
pub proof fn law_going_into_a_section(e: Editor, shown: Seq<char>, name: Seq<char>)
    requires
        name.len() <= shown.len(),
        name == shown.take(name.len() as int),
        forall|i: int| name.len() <= i < shown.len() ==> #[trigger] shown[i] == '/',
        name.len() > 0 ==> name.last() != '/',
    ensures
        pushed(e, shown, true).sub == e.sub.push(name),
        shown_path(pushed(e, shown, true)) == shown_path(e) + seq!['/'] + name,
        pushed(e, shown, true).path == e.path,
        same_file(pushed(e, shown, true), e),
        same_rest(pushed(e, shown, true), e),
        candidate(e, shown, true) is None,
        pushed(e, shown, false) == e,
        candidate(e, shown, false) == Some(joined_path(e.path, name)),
{
    let cut = without_trailing(shown, '/');
    law_without_trailing(shown, '/');
    if cut.len() < name.len() {
        assert(shown[name.len() - 1] == '/');
        assert(name.last() == shown[name.len() - 1]);
    } else if name.len() < cut.len() {
        assert(shown[cut.len() - 1] == '/');
        assert(cut.last() == shown[cut.len() - 1]);
    }
    assert(cut =~= name);
    reveal_strlit("/");
    assert("/"@ =~= seq!['/']);
    let all = e.sub.push(name);
    law_joined_parts(e.sub, seq![name], '/');
    law_joined_parts(seq![name], seq![name], '/');
    law_joined_parts(all, all, '/');
    if e.sub.len() == 0 {
        assert(all =~= seq![name]);
        assert(shown_path(pushed(e, shown, true)) =~= shown_path(e) + seq!['/'] + name);
    } else {
        assert(e.sub + seq![name] =~= all);
        assert(shown_path(pushed(e, shown, true)) =~= shown_path(e) + seq!['/'] + name);
    }
}

/// With no section open, the path that is seen is that of the folder or file.
pub proof fn law_shown_path(e: Editor)
    ensures
        e.sub.len() == 0 ==> shown_path(e) == e.path,
        e.sub.len() > 0 ==> shown_path(e) == shown_path(
            Editor { sub: e.sub.drop_last(), ..e },
        ) + seq!['/'] + e.sub.last(),
{
    reveal_strlit("/");
    assert("/"@ =~= seq!['/']);
    if e.sub.len() > 0 {
        let front = e.sub.drop_last();
        law_joined_parts(front, seq![e.sub.last()], '/');
        law_joined_parts(seq![e.sub.last()], front, '/');
        if front.len() == 0 {
            assert(e.sub =~= seq![e.sub.last()]);
        } else {
            assert(front + seq![e.sub.last()] =~= e.sub);
        }
        assert(shown_path(e) =~= shown_path(Editor { sub: front, ..e }) + seq!['/']
            + e.sub.last());
    }
}

/// Going up closes the innermost section, where one is open, and keeps what is
/// known of the file. Otherwise it opens the folder around the one that is open;
/// the start folder is not left. Where there is no folder around, the path stays
/// and the file is forgotten.
pub proof fn law_going_up(e: Editor, start: bool, parent: Seq<char>)
    ensures
        e.sub.len() > 0 ==> {
            &&& left_to(e, start, Some(parent)) == left_to(e, start, None)
            &&& left_to(e, start, None).sub == e.sub.drop_last()
            &&& left_to(e, start, None).path == e.path
            &&& same_file(left_to(e, start, None), e)
            &&& same_rest(left_to(e, start, None), e)
        },
        e.sub.len() == 0 ==> {
            &&& left_to(e, true, Some(parent)) == e
            &&& left_to(e, true, None) == e
            &&& left_to(e, false, Some(parent)) == moved(e, parent)
            &&& left_to(e, false, None) == moved(e, e.path)
        },
        popped(e) == left_to(e, same_path(e.path, e.root), parent_path(e.path)),
        at_start(e) <==> same_path(e.path, e.root) && e.sub.len() == 0,
        in_file(e, true),
        in_file(e, false) <==> e.sub.len() > 0,
{
    if e.sub.len() == 0 {
        assert(e.sub =~= Seq::empty());
    }
}

// ---------------------------------------------------------------------------
// Showing
// ---------------------------------------------------------------------------

/// A file that is read is known by its lines, by its tree as fields to edit, and
/// by the newline at its end. Where the user is stays the same.
pub proof fn law_file_is_read(e: Editor, contents: Seq<char>, other: Seq<char>)
    ensures
        ({
            let now = read(e, contents);
            &&& now.lines == lines_of(contents)
            &&& now.ending == Ending::Plain
            &&& now.tree == all_editable(file_tree(lines_of(contents), extension(e.path)))
            &&& now.loaded
            &&& now.trailing <==> contents.len() > 0 && contents[contents.len() - 1] == '\n'
            &&& now.root == e.root
            &&& now.path == e.path
            &&& now.sub == e.sub
            &&& now.refresh == e.refresh
            &&& now.entries == e.entries
        }),
        read(read(e, other), contents) == read(e, contents),
{
}

/// A file is read once: as long as it is known, what is on disk does not matter.
/// One that cannot be read changes nothing.
pub proof fn law_file_is_read_once(e: Editor, contents: Seq<char>, disk: Option<Seq<char>>)
    ensures
        e.loaded ==> ensured(e, disk) == e,
        !e.loaded ==> ensured(e, Some(contents)) == read(e, contents),
        ensured(e, None) == e,
        ensured(read(e, contents), disk) == read(e, contents),
{
}

/// The extension of a path is empty where the path has none.
pub proof fn law_extension(path: Seq<char>, ext: Seq<char>)
    ensures
        path_extension(path) == Some(ext) ==> extension(path) == ext,
        path_extension(path) is None ==> extension(path).len() == 0,
{
}

/// Without a start folder there is a hint, and nothing is asked for. In a folder
/// its entries are asked for. In a file what stands in the open sections is shown,
/// once the file is read.
pub proof fn law_what_is_shown(e: Editor, at_file: bool)
    ensures
        blank(e.root) ==> screen_of(e, at_file) == Screen::Show(
            seq![Node::Leaf("set text editor path in settings"@)],
        ),
        !blank(e.root) && !at_file && e.sub.len() == 0 ==> screen_of(e, at_file)
            == (Screen::ListDirectory { path: e.path }),
        !blank(e.root) && (at_file || e.sub.len() > 0) && e.loaded ==> screen_of(e, at_file)
            == Screen::Show(navigated(e.tree, e.sub)),
        !blank(e.root) && (at_file || e.sub.len() > 0) && !e.loaded ==> screen_of(e, at_file)
            == (Screen::ReadFile { path: e.path }),
{
    law_trimmed(e.root);
}

/// Of a file what stands in the open sections is shown, and a note where it cannot
/// be read.
pub proof fn law_file_is_shown(e: Editor, contents: Seq<char>, disk: Option<Seq<char>>)
    ensures
        e.loaded ==> file_view(e, disk) == navigated(e.tree, e.sub),
        !e.loaded ==> file_view(e, Some(contents)) == navigated(
            all_editable(file_tree(lines_of(contents), extension(e.path))),
            e.sub,
        ),
        !e.loaded ==> file_view(e, None) == seq![Node::Leaf("(binary or unreadable file)"@)],
{
}

/// Element `i` is the first section of the list that is seen as `name`.
pub open spec fn first_named(list: Seq<Node>, name: Seq<char>, i: int) -> bool {
    &&& 0 <= i < list.len()
    &&& list[i] is Branch
    &&& display_text(list[i]->Branch_0) == name
    &&& forall|j: int|
        0 <= j < i && #[trigger] list[j] is Branch ==> display_text(list[j]->Branch_0) != name
}

proof fn lemma_first_named(list: Seq<Node>, name: Seq<char>, k: int)
    requires
        0 <= k <= list.len(),
        forall|j: int|
            0 <= j < k && #[trigger] list[j] is Branch ==> display_text(list[j]->Branch_0) != name,
    ensures
        match section_named(list, name, k) {
            Some(i) => first_named(list, name, i),
            None => forall|i: int| !first_named(list, name, i),
        },
    decreases list.len() - k,
{
    if k < list.len() && !(list[k] is Branch && display_text(list[k]->Branch_0) == name) {
        lemma_first_named(list, name, k + 1);
    }
}

/// What is shown below a section are the children of the first section of that
/// name, and nothing where there is none.
pub proof fn law_section_is_entered(list: Seq<Node>, name: Seq<char>, i: int)
    ensures
        navigated(list, Seq::empty()) == list,
        first_named(list, name, i) ==> navigated(list, seq![name]) == list[i]->Branch_1,
        (forall|j: int| !first_named(list, name, j)) ==> navigated(list, seq![name]).len() == 0,
{
    lemma_first_named(list, name, 0);
    reveal_with_fuel(navigated, 2);
    assert(seq![name].skip(1) =~= Seq::empty());
    if first_named(list, name, i) {
        let found = section_named(list, name, 0);
        assert(found is Some);
        let j = found->0;
        if i < j {
            assert(list[i] is Branch);
        } else if j < i {
            assert(list[j] is Branch);
        }
    }
}

/// Going into sections one after the other is going into all of them.
pub proof fn law_sections_are_entered_in_turn(
    list: Seq<Node>,
    path: Seq<Seq<char>>,
    rest: Seq<Seq<char>>,
)
    ensures
        navigated(list, path + rest) == navigated(navigated(list, path), rest),
    decreases path.len(),
{
    if path.len() == 0 {
        assert(path + rest =~= rest);
    } else {
        let all = path + rest;
        assert(all[0] == path[0]);
        assert(all.skip(1) =~= path.skip(1) + rest);
        match section_named(list, path[0], 0) {
            Some(i) => {
                law_sections_are_entered_in_turn(list[i]->Branch_1, path.skip(1), rest);
            },
            None => {
                lemma_nothing_below_nothing(rest);
            },
        }
    }
}

proof fn lemma_nothing_below_nothing(path: Seq<Seq<char>>)
    ensures
        navigated(Seq::empty(), path).len() == 0,
        navigated(Seq::empty(), path) == Seq::<Node>::empty(),
{
}

/// `wrapped` are the texts of `list`, each on its level and as a field to edit.
pub open spec fn wrapped(
    fields: Seq<(nat, Seq<char>)>,
    list: Seq<(nat, Seq<char>)>,
) -> bool {
    &&& fields.len() == list.len()
    &&& forall|k: int|
        0 <= k < list.len() ==> {
            &&& (#[trigger] fields[k]).0 == list[k].0
            &&& fields[k].1 == "<input>"@ + list[k].1 + "</input>"@
        }
}

/// A tree that is made editable keeps its shape, and each of its texts becomes a
/// field.
pub proof fn law_every_text_becomes_a_field(list: Seq<Node>, d: nat)
    ensures
        wrapped(levels_all(all_editable(list), d), levels_all(list, d)),
        all_editable(list).len() == list.len(),
        forall|i: int|
            0 <= i < list.len() ==> (#[trigger] all_editable(list)[i] is Branch
                <==> list[i] is Branch),
    decreases list,
{
    if list.len() > 0 {
        let front = list.drop_last();
        let last = list.last();
        law_every_text_becomes_a_field(front, d);
        let all = all_editable(list);
        assert(all.drop_last() =~= all_editable(front));
        assert(all.last() == editable(last));
        assert forall|i: int| 0 <= i < list.len() implies (#[trigger] all[i] is Branch
            <==> list[i] is Branch) by {
            if i < front.len() {
                assert(all[i] == all_editable(front)[i]);
                assert(list[i] == front[i]);
            }
        }
        if let Node::Branch(key, children) = last {
            law_every_text_becomes_a_field(children, d + 1);
            assert(wrapped(levels(editable(last), d), levels(last, d)));
        } else {
            assert(wrapped(levels(editable(last), d), levels(last, d)));
        }
    }
}

} // verus!
