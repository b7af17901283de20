//! Workspaces beside the main one.

use vstd::prelude::*;

use crate::ids::short_id;
use crate::journal::HistoryView;
use crate::paths::same_path;
use crate::text::{bytes_between, chars_of, find_char, is_text, same_chars, split_chars, string_of, utf8_text};
use crate::ui::{blank, concat, joined_texts, padded_to, put, Span, SpanView, Style};

verus! {

/// What is remembered of a workspace.
#[derive(Debug)]
pub struct WorkspaceState {
    /// Its name.
    pub name: String,
    /// Where it is.
    pub path: String,
    /// The checkpoint it was left at.
    pub current_checkpoint: Option<u128>,
    /// When it was last switched to, in milliseconds since the start of 1970.
    pub last_switched_ms: u64,
    /// When it was created.
    pub created_ms: u64,
    /// The pin that keeps its checkpoint.
    pub auto_pin: Option<String>,
}

/// The pin that keeps the checkpoint of a workspace.
pub fn workspace_pin(name: &str) -> (pin: String)
    ensures
        pin@ == "ws:"@ + name@,
{
    concat("ws:", name)
}

/// The pin of a workspace names its checkpoint, whatever is recorded.
pub proof fn workspace_pin_names_its_checkpoint(
    h: HistoryView,
    pins: Seq<(Seq<char>, u128)>,
    name: Seq<char>,
    id: u128,
)
    requires
        crate::journal::find_pin(pins, "ws:"@ + name) == Some(id),
    ensures
        crate::journal::named(h, pins, "ws:"@ + name) == Ok::<u128, crate::journal::RefError>(id),
        crate::journal::named_id(h, pins, "ws:"@ + name) == Some(id),
        crate::journal::named_checkpoint(h, pins, "ws:"@ + name) == h.find(id),
{
    let pin = "ws:"@ + name;
    reveal_strlit("ws:");
    reveal_strlit("HEAD");
    reveal_strlit("HEAD~");
    assert(pin[0] == 'w' && pin[1] == 's' && pin[2] == ':');
    assert(pin != "HEAD"@) by {
        assert("HEAD"@[0] == 'H');
    }
    if crate::text::begins_with(pin, "HEAD~"@) {
        assert(pin.take(5)[0] == 'H');
    }
    let bytes = vstd::utf8::encode_utf8(pin);
    assert(bytes[2] == 58u8) by {
        lemma_third_byte(pin);
    }
    assert(crate::ids::letter_value(58u8) == 32) by {
        reveal_strlit("0123456789ABCDEFGHJKMNPQRSTVWXYZ");
        crate::text::lemma_first_index(crate::ids::alphabet(), ':', 32);
    }
    assert forall|i: int| 0 <= i < h.records.len() implies !crate::text::begins_with(
        crate::ids::ulid_text((#[trigger] h.records[i]).id),
        pin,
    ) by {
        let text = crate::ids::ulid_text(h.records[i].id);
        crate::ids::id_text_is_plain(h.records[i].id);
        if crate::text::begins_with(text, pin) {
            assert(text.take(pin.len() as int)[0] == 'w');
        }
    }
    crate::journal::pin_names_its_checkpoint(h, pins, pin, id);
}

/// The third byte of the pin of a workspace is the colon.
proof fn lemma_third_byte(pin: Seq<char>)
    requires
        pin.len() >= 3,
        pin[0] == 'w' && pin[1] == 's' && pin[2] == ':',
    ensures
        vstd::utf8::encode_utf8(pin).len() >= 3,
        vstd::utf8::encode_utf8(pin)[2] == 58u8,
{
    reveal_with_fuel(vstd::utf8::encode_utf8, 4);
    assert(pin.drop_first()[0] == 's');
    assert(pin.drop_first().drop_first()[0] == ':');
    assert((58u32 & 0x7F) as u8 == 58u8) by (bit_vector);
}

/// What is remembered of a workspace when one is added.
pub fn added_state(name: &str, path: &str, checkpoint: Option<u128>, now_ms: u64) -> (s: WorkspaceState)
    ensures
        s.name@ == name@,
        s.path@ == path@,
        s.current_checkpoint == checkpoint,
        s.last_switched_ms == now_ms,
        s.created_ms == now_ms,
        s.auto_pin matches Some(p) && p@ == "ws:"@ + name@,
{
    WorkspaceState {
        name: name.to_owned(),
        path: path.to_owned(),
        current_checkpoint: checkpoint,
        last_switched_ms: now_ms,
        created_ms: now_ms,
        auto_pin: Some(workspace_pin(name)),
    }
}

/// What is remembered of a workspace that is left for another one. Its place and
/// when it was created stay as they were, where anything was remembered.
pub fn left_state(known: Option<WorkspaceState>, name: &str, root: &str, checkpoint: u128, now_ms: u64) -> (s:
    WorkspaceState)
    ensures
        s.current_checkpoint == Some(checkpoint),
        s.last_switched_ms == now_ms,
        s.auto_pin matches Some(p) && p@ == "ws:"@ + name@,
        match known {
            Some(k) => s.name == k.name && s.path == k.path && s.created_ms == k.created_ms,
            None => s.name@ == name@ && s.path@ == root@ && s.created_ms == now_ms,
        },
{
    match known {
        Some(k) => WorkspaceState {
            name: k.name,
            path: k.path,
            current_checkpoint: Some(checkpoint),
            last_switched_ms: now_ms,
            created_ms: k.created_ms,
            auto_pin: Some(workspace_pin(name)),
        },
        None => WorkspaceState {
            name: name.to_owned(),
            path: root.to_owned(),
            current_checkpoint: Some(checkpoint),
            last_switched_ms: now_ms,
            created_ms: now_ms,
            auto_pin: Some(workspace_pin(name)),
        },
    }
}

/// The number of places tried for a new workspace.
pub const MAX_PLACES: u64 = 100;

/// Why no place for a workspace is found.
#[derive(Debug, Clone, Copy, PartialEq, Eq, Structural)]
pub enum PlaceError {
    /// The repository has no name.
    NoName,
    /// All places are taken.
    TooMany,
}

/// The position of the last part of a path that counts, -1 where none does: a name, or
/// the current directory where the path begins with it.
pub open spec fn last_part(parts: Seq<Seq<char>>) -> int
    decreases parts.len(),
{
    if parts.len() == 0 {
        -1
    } else if crate::paths::is_name(parts.last()) || (parts.len() == 1 && parts.last() == "."@) {
        parts.len() - 1
    } else {
        last_part(parts.drop_last())
    }
}

/// The directory of the repository has a name: its path ends in one that leads neither
/// up nor nowhere.
pub open spec fn has_name(root: Seq<char>) -> bool {
    let parts = crate::text::split(root, '/');
    let n = last_part(parts);
    n >= 0 && parts[n] != "."@ && parts[n] != ".."@
}

/// The name of the repository's directory.
pub open spec fn repository_name(root: Seq<char>) -> Seq<char> {
    let parts = crate::text::split(root, '/');
    parts[last_part(parts)]
}

/// The directory that holds the repository: the path up to the part before the name.
pub open spec fn parent_of(root: Seq<char>) -> Seq<char> {
    let parts = crate::text::split(root, '/');
    let m = last_part(parts.take(last_part(parts)));
    if m >= 0 {
        crate::ui::join(parts.take(m + 1), "/"@)
    } else if crate::paths::is_absolute(root) {
        "/"@
    } else {
        Seq::empty()
    }
}

/// The place for a workspace after `k` that are taken: beside the repository, under
/// the names of both and, from the second on, a number.
pub open spec fn place(root: Seq<char>, name: Seq<char>, k: nat) -> Seq<char> {
    let base = repository_name(root) + "-"@ + name;
    crate::paths::under(
        parent_of(root),
        if k == 0 {
            base
        } else {
            base + "-"@ + crate::text::decimal(k)
        },
    )
}

/// Two paths lead to the same place from the same directory: they have the same names,
/// from the root of the file system or not.
pub open spec fn same_place(a: Seq<char>, b: Seq<char>) -> bool {
    crate::paths::is_absolute(a) == crate::paths::is_absolute(b) && crate::paths::names(a) == crate::paths::names(b)
}

/// Something exists at the place.
pub open spec fn is_taken(path: Seq<char>, existing: Seq<Seq<char>>) -> bool {
    exists|i: int| 0 <= i < existing.len() && same_place(#[trigger] existing[i], path)
}

fn taken_by(path: &str, existing: &Vec<String>) -> (r: bool)
    ensures
        r == is_taken(path@, crate::text::texts(existing@)),
{
    let ghost all = crate::text::texts(existing@);
    let chars = chars_of(path);
    let absolute: bool = chars.len() > 0 && chars[0] == '/';
    let mut i: usize = 0;
    while i < existing.len()
        invariant
            i <= existing.len(),
            all == crate::text::texts(existing@),
            absolute == crate::paths::is_absolute(path@),
            forall|j: int| 0 <= j < i ==> !same_place(#[trigger] all[j], path@),
        decreases existing.len() - i,
    {
        assert(all[i as int] == existing@[i as int]@);
        let other = chars_of(existing[i].as_str());
        if (other.len() > 0 && other[0] == '/') == absolute && same_path(existing[i].as_str(), path) {
            return true;
        }
        i = i + 1;
    }
    false
}

fn last_part_of(parts: &Vec<Vec<char>>, end: usize) -> (r: Option<usize>)
    requires
        end <= parts.len(),
    ensures
        match r {
            Some(n) => n < end && n == last_part(crate::text::deep(parts@).take(end as int)),
            None => last_part(crate::text::deep(parts@).take(end as int)) == -1,
        },
    decreases end,
{
    let ghost t = crate::text::deep(parts@).take(end as int);
    if end == 0 {
        return None;
    }
    let part = &parts[end - 1];
    assert(t.last() == part@);
    let dot: bool = is_text(part.as_slice(), ".");
    if (part.len() > 0 && !dot) || (end == 1 && dot) {
        return Some(end - 1);
    }
    assert(t.drop_last() =~= crate::text::deep(parts@).take(end - 1));
    last_part_of(parts, end - 1)
}

fn joined_parts(parts: &Vec<Vec<char>>, end: usize) -> (s: String)
    requires
        end <= parts.len(),
    ensures
        s@ == crate::ui::join(crate::text::deep(parts@).take(end as int), "/"@),
{
    let ghost all = crate::text::deep(parts@);
    let mut above: Vec<String> = Vec::new();
    let mut i: usize = 0;
    while i < end
        invariant
            i <= end,
            end <= parts.len(),
            all == crate::text::deep(parts@),
            crate::text::texts(above@) == all.take(i as int),
        decreases end - i,
    {
        let ghost before = above@;
        let part = string_of(parts[i].as_slice());
        above.push(part);
        assert(crate::text::texts(above@) =~= crate::text::texts(before).push(part@));
        i = i + 1;
        assert(crate::text::texts(above@) =~= all.take(i as int));
    }
    joined_texts(&above, "/")
}

fn place_of(parent: &str, repo: &str, name: &str, k: u64) -> (s: String)
    ensures
        s@ == crate::paths::under(
            parent@,
            if k == 0 {
                repo@ + "-"@ + name@
            } else {
                repo@ + "-"@ + name@ + "-"@ + crate::text::decimal(k as nat)
            },
        ),
{
    let mut base = concat(repo, "-");
    base.append(name);
    if k > 0 {
        base.append("-");
        base.append(crate::text::decimal_string(k).as_str());
    }
    crate::paths::path_under(parent, base.as_str())
}

/// Finds a place for a new workspace beside the repository: the first that is not
/// among the existing paths.
pub fn generate_workspace_path(root: &str, name: &str, existing: &Vec<String>) -> (r: Result<String, PlaceError>)
    ensures
        ({
            let taken = crate::text::texts(existing@);
            match r {
                Ok(p) => has_name(root@) && exists|k: nat|
                    k < MAX_PLACES && p@ == #[trigger] place(root@, name@, k) && !is_taken(p@, taken) && forall|j: nat|
                        j < k ==> is_taken(#[trigger] place(root@, name@, j), taken),
                Err(PlaceError::NoName) => !has_name(root@),
                Err(PlaceError::TooMany) => has_name(root@) && forall|j: nat|
                    j < MAX_PLACES ==> is_taken(#[trigger] place(root@, name@, j), taken),
            }
        }),
{
    let chars = chars_of(root);
    let parts = split_chars(chars.as_slice(), '/');
    let ghost all = crate::text::split(root@, '/');
    let ghost taken = crate::text::texts(existing@);
    assert(all.take(parts.len() as int) =~= all);
    let n: usize = match last_part_of(&parts, parts.len()) {
        Some(n) => n,
        None => {
            return Err(PlaceError::NoName);
        },
    };
    assert(all[n as int] == parts@[n as int]@);
    if is_text(parts[n].as_slice(), ".") || is_text(parts[n].as_slice(), "..") {
        return Err(PlaceError::NoName);
    }
    let repo = string_of(parts[n].as_slice());
    let parent: String = match last_part_of(&parts, n) {
        Some(m) => joined_parts(&parts, m + 1),
        None => if chars.len() > 0 && chars[0] == '/' {
            "/".to_owned()
        } else {
            String::new()
        },
    };
    assert(parent@ =~= parent_of(root@));
    let mut k: u64 = 0;
    while k < MAX_PLACES
        invariant
            k <= MAX_PLACES,
            has_name(root@),
            taken == crate::text::texts(existing@),
            repo@ == repository_name(root@),
            parent@ == parent_of(root@),
            forall|j: nat| j < k ==> is_taken(#[trigger] place(root@, name@, j), taken),
        decreases MAX_PLACES - k,
    {
        let path = place_of(parent.as_str(), repo.as_str(), name, k);
        assert(path@ == place(root@, name@, k as nat));
        if !taken_by(path.as_str(), existing) {
            return Ok(path);
        }
        k = k + 1;
    }
    Err(PlaceError::TooMany)
}

/// Why a workspace cannot have a name.
#[derive(Debug, Clone, Copy, PartialEq, Eq, Structural)]
pub enum WorkspaceNameError {
    /// There is none.
    Empty,
    /// It holds a slash.
    Slash,
}

/// Decides whether a workspace can have a name: one name of a path.
pub fn check_workspace_name(name: &str) -> (r: Result<(), WorkspaceNameError>)
    ensures
        r == name_outcome(name@),
{
    let chars = chars_of(name);
    if chars.len() == 0 {
        return Err(WorkspaceNameError::Empty);
    }
    assert(chars@.skip(0) =~= name@);
    match find_char(chars.as_slice(), 0, '/') {
        Some(_) => {
            proof {
                crate::text::lemma_first_index_range(name@, '/');
            }
            Err(WorkspaceNameError::Slash)
        },
        None => {
            proof {
                crate::text::lemma_first_index_range(name@, '/');
            }
            Ok(())
        },
    }
}

/// A workspace in the listing.
#[derive(Debug)]
pub struct WorkspaceInfo {
    /// Its name.
    pub name: String,
    /// Where it is.
    pub path: String,
    /// Whether it is the one that is worked in.
    pub is_current: bool,
    /// Whether it has changes.
    pub has_changes: bool,
}

/// The state of a workspace in a word.
pub open spec fn status_span(current: bool, changed: bool) -> SpanView {
    if current && changed {
        crate::ui::styled("Working"@, Style::BoldCyan)
    } else if current {
        crate::ui::styled("Current"@, Style::Cyan)
    } else if changed {
        crate::ui::styled("Modified"@, Style::Yellow)
    } else {
        crate::ui::styled("Clean"@, Style::Green)
    }
}

/// A path as the listing shows it: one of more than 30 bytes is cut to its last 27.
pub open spec fn shown_path(path: Seq<char>) -> Seq<char> {
    let bytes = vstd::utf8::encode_utf8(path);
    if bytes.len() > 30 {
        "..."@ + vstd::utf8::decode_utf8(bytes.skip(bytes.len() - 27))
    } else {
        path
    }
}

/// The path can be cut between two characters.
pub open spec fn can_be_cut(path: Seq<char>) -> bool {
    let bytes = vstd::utf8::encode_utf8(path);
    bytes.len() > 30 ==> vstd::utf8::valid_utf8(bytes.skip(bytes.len() - 27))
}

/// Whether a path can be shown in the listing: one that is too long for it is cut, which
/// takes a place between two characters.
pub fn is_showable(path: &str) -> (r: bool)
    ensures
        r == can_be_cut(path@),
{
    let bytes = path.as_bytes();
    let n: usize = bytes.len();
    if n > 30 {
        let tail = bytes_between(bytes, n - 27, n);
        assert(tail@ =~= bytes@.skip(n - 27));
        utf8_text(tail.as_slice()).is_ok()
    } else {
        true
    }
}

fn shown_path_of(path: &str) -> (s: String)
    requires
        can_be_cut(path@),
    ensures
        s@ == shown_path(path@),
{
    let bytes = path.as_bytes();
    let n: usize = bytes.len();
    if n > 30 {
        let tail = bytes_between(bytes, n - 27, n);
        assert(tail@ =~= bytes@.skip(n - 27));
        match utf8_text(tail.as_slice()) {
            Ok(s) => concat("...", s.as_str()),
            Err(_) => concat("...", ""),
        }
    } else {
        path.to_owned()
    }
}

/// The control characters that the terminal is sent around a text of a style.
pub open spec fn controls(style: Style) -> nat {
    match style {
        Style::Plain => 0,
        Style::Dimmed => 8,
        _ => 10,
    }
}

/// The spaces that fill a column up to its width. Control characters count.
pub open spec fn filling(s: SpanView, width: nat) -> SpanView {
    crate::ui::plain(
        crate::ui::pad_right(
            Seq::empty(),
            if s.text.len() + controls(s.style) < width {
                (width - s.text.len() - controls(s.style)) as nat
            } else {
                0
            },
        ) + " "@,
    )
}

fn put_filling(l: &mut Vec<Span>, text: &str, style: Style, width: usize)
    requires
        style == Style::Plain || style == Style::Dimmed || style == Style::Cyan || style == Style::Yellow,
        width <= 100,
    ensures
        crate::ui::line(final(l)@) == crate::ui::line(old(l)@).push(crate::ui::styled(text@, style)).push(
            filling(crate::ui::styled(text@, style), width as nat),
        ),
{
    let extra: usize = match style {
        Style::Plain => 0,
        Style::Dimmed => 8,
        _ => 10,
    };
    let n: usize = chars_of(text).len();
    let gap: usize = if n < width && extra < width - n { width - n - extra } else { 0 };
    let mut spaces = padded_to("", gap);
    proof {
        reveal_strlit("");
        assert(""@ =~= Seq::empty());
    }
    spaces.append(" ");
    put(l, text, style);
    put(l, spaces.as_str(), Style::Plain);
}

/// The name of a workspace in the listing.
pub open spec fn name_span(name: Seq<char>, current: bool) -> SpanView {
    if current {
        crate::ui::styled(name + " (current)"@, Style::Cyan)
    } else {
        crate::ui::plain(name)
    }
}

/// The checkpoint of a workspace in the listing.
pub open spec fn checkpoint_span(checkpoint: Option<u128>) -> SpanView {
    match checkpoint {
        Some(id) => crate::ui::styled(crate::ids::ulid_text(id).take(8) + "..."@, Style::Yellow),
        None => crate::ui::styled("-"@, Style::Dimmed),
    }
}

/// A workspace in the listing.
pub open spec fn workspace_line(w: WorkspaceInfo, checkpoint: Option<u128>) -> Seq<SpanView> {
    let name = name_span(w.name@, w.is_current);
    let path = crate::ui::plain(shown_path(w.path@));
    let cp = checkpoint_span(checkpoint);
    seq![
        name,
        filling(name, 18),
        path,
        filling(path, 30),
        cp,
        filling(cp, 14),
        status_span(w.is_current, w.has_changes),
    ]
}

/// Shows a workspace in the listing. `checkpoint` is the one it was left at.
pub fn show_workspace(w: &WorkspaceInfo, checkpoint: Option<u128>) -> (l: Vec<Span>)
    requires
        can_be_cut(w.path@),
    ensures
        crate::ui::line(l@) == workspace_line(*w, checkpoint),
{
    let mut l = blank();
    if w.is_current {
        put_filling(&mut l, concat(w.name.as_str(), " (current)").as_str(), Style::Cyan, 18);
    } else {
        put_filling(&mut l, w.name.as_str(), Style::Plain, 18);
    }
    put_filling(&mut l, shown_path_of(w.path.as_str()).as_str(), Style::Plain, 30);
    match checkpoint {
        Some(id) => put_filling(&mut l, concat(short_id(id).as_str(), "...").as_str(), Style::Yellow, 14),
        None => put_filling(&mut l, "-", Style::Dimmed, 14),
    }
    if w.is_current && w.has_changes {
        put(&mut l, "Working", Style::BoldCyan);
    } else if w.is_current {
        put(&mut l, "Current", Style::Cyan);
    } else if w.has_changes {
        put(&mut l, "Modified", Style::Yellow);
    } else {
        put(&mut l, "Clean", Style::Green);
    }
    assert(crate::ui::line(l@) =~= workspace_line(*w, checkpoint));
    l
}

/// The names of workspaces.
pub open spec fn workspace_names(list: Seq<WorkspaceInfo>) -> Seq<Seq<char>> {
    list.map_values(|w: WorkspaceInfo| w.name@)
}

/// The position of the first workspace of a name, or the number of workspaces.
pub open spec fn find_workspace(names: Seq<Seq<char>>, name: Seq<char>) -> int {
    crate::text::first_index(names, name)
}

/// What switching to a workspace does.
#[derive(Debug)]
pub enum SwitchPlan {
    /// It is the current one.
    Already,
    /// There is none of that name.
    Unknown {
        /// The message.
        message: String,
    },
    /// The one at this position in the list.
    Switch {
        /// Position in the list.
        position: usize,
    },
}

/// The message for a workspace that is not there.
pub open spec fn unknown_workspace(name: Seq<char>, names: Seq<Seq<char>>) -> Seq<char> {
    "Workspace '"@ + name + "' not found.\n  Available: "@ + crate::ui::join(names, ", "@)
}

fn all_names(list: &Vec<WorkspaceInfo>) -> (names: Vec<String>)
    ensures
        crate::text::texts(names@) == workspace_names(list@),
{
    let ghost want = workspace_names(list@);
    let mut names: Vec<String> = Vec::new();
    let mut i: usize = 0;
    while i < list.len()
        invariant
            i <= list.len(),
            want == workspace_names(list@),
            crate::text::texts(names@) == want.take(i as int),
        decreases list.len() - i,
    {
        let ghost before = names@;
        names.push(list[i].name.clone());
        assert(crate::text::texts(names@) =~= crate::text::texts(before).push(list@[i as int].name@));
        i = i + 1;
        assert(crate::text::texts(names@) =~= want.take(i as int));
    }
    assert(want.take(want.len() as int) =~= want);
    names
}

/// Decides what switching to a workspace does.
pub fn switch_plan(current: &str, name: &str, list: &Vec<WorkspaceInfo>) -> (plan: SwitchPlan)
    ensures
        ({
            let names = workspace_names(list@);
            if current@ == name@ {
                plan is Already
            } else if names.contains(name@) {
                plan matches SwitchPlan::Switch { position } && position == find_workspace(names, name@)
            } else {
                plan matches SwitchPlan::Unknown { message } && message@ == unknown_workspace(name@, names)
            }
        }),
{
    let here = chars_of(current);
    let wanted = chars_of(name);
    if same_chars(here.as_slice(), wanted.as_slice()) {
        return SwitchPlan::Already;
    }
    let ghost names = workspace_names(list@);
    let mut i: usize = 0;
    while i < list.len()
        invariant
            i <= list.len(),
            wanted@ == name@,
            current@ != name@,
            names == workspace_names(list@),
            forall|j: int| 0 <= j < i ==> #[trigger] names[j] != name@,
        decreases list.len() - i,
    {
        assert(names[i as int] == list@[i as int].name@);
        let have = chars_of(list[i].name.as_str());
        if same_chars(have.as_slice(), wanted.as_slice()) {
            proof {
                crate::text::lemma_first_index(names, name@, i as int);
                assert(names.contains(name@));
            }
            return SwitchPlan::Switch { position: i };
        }
        i = i + 1;
    }
    assert(!names.contains(name@));
    let available = all_names(list);
    let mut message = concat("Workspace '", name);
    message.append("' not found.\n  Available: ");
    message.append(joined_texts(&available, ", ").as_str());
    SwitchPlan::Unknown { message }
}

/// The workspaces other than the named one.
pub open spec fn others(names: Seq<Seq<char>>, name: Seq<char>) -> Seq<Seq<char>>
    decreases names.len(),
{
    if names.len() == 0 {
        Seq::empty()
    } else {
        let before = others(names.drop_last(), name);
        if names.last() != name {
            before.push(names.last())
        } else {
            before
        }
    }
}

/// A command that switches to a workspace.
pub open spec fn switch_command(name: Seq<char>) -> Seq<char> {
    "    tl worktree switch "@ + name
}

/// The message for the attempt to remove the current workspace.
pub open spec fn current_refusal(rest: Seq<Seq<char>>) -> Seq<char> {
    if rest.len() == 0 {
        "Cannot remove current workspace.\n  This is the only workspace."@
    } else {
        "Cannot remove current workspace.\n  Switch to another workspace first:\n"@ + crate::ui::join(
            rest.map_values(|n: Seq<char>| switch_command(n)),
            "\n"@,
        )
    }
}

/// Why a workspace cannot be removed, if it cannot: it is the current one.
pub fn check_removal(current: &str, name: &str, list: &Vec<WorkspaceInfo>) -> (refusal: Option<String>)
    ensures
        crate::git_config::opt_text(refusal) == (if current@ == name@ {
            Some(current_refusal(others(workspace_names(list@), name@)))
        } else {
            None
        }),
{
    let here = chars_of(current);
    let wanted = chars_of(name);
    if !same_chars(here.as_slice(), wanted.as_slice()) {
        return None;
    }
    let ghost names = workspace_names(list@);
    let mut rest: Vec<String> = Vec::new();
    let mut i: usize = 0;
    assert(names.take(0) =~= Seq::empty());
    assert(crate::text::texts(rest@) =~= others(names.take(0), name@).map_values(|n: Seq<char>| switch_command(n)));
    while i < list.len()
        invariant
            i <= list.len(),
            wanted@ == name@,
            names == workspace_names(list@),
            crate::text::texts(rest@) == others(names.take(i as int), name@).map_values(
                |n: Seq<char>| switch_command(n),
            ),
        decreases list.len() - i,
    {
        let ghost before = rest@;
        proof {
            assert(names.take(i + 1).drop_last() =~= names.take(i as int));
            assert(names.take(i + 1).last() == list@[i as int].name@);
        }
        let have = chars_of(list[i].name.as_str());
        if !same_chars(have.as_slice(), wanted.as_slice()) {
            let command = concat("    tl worktree switch ", list[i].name.as_str());
            rest.push(command);
            proof {
                assert(crate::text::texts(rest@) =~= crate::text::texts(before).push(command@));
                assert(crate::text::texts(rest@) =~= others(names.take(i + 1), name@).map_values(
                    |n: Seq<char>| switch_command(n),
                ));
            }
        }
        i = i + 1;
    }
    assert(names.take(names.len() as int) =~= names);
    if rest.len() == 0 {
        assert(others(names, name@).len() == crate::text::texts(rest@).len());
        Some("Cannot remove current workspace.\n  This is the only workspace.".to_owned())
    } else {
        assert(others(names, name@).len() == crate::text::texts(rest@).len());
        Some(
            concat(
                "Cannot remove current workspace.\n  Switch to another workspace first:\n",
                joined_texts(&rest, "\n").as_str(),
            ),
        )
    }
}

/// Whether a workspace can have a name, and why not.
pub open spec fn name_outcome(name: Seq<char>) -> Result<(), WorkspaceNameError> {
    if name.len() == 0 {
        Err::<(), WorkspaceNameError>(WorkspaceNameError::Empty)
    } else if name.contains('/') {
        Err(WorkspaceNameError::Slash)
    } else {
        Ok(())
    }
}

/// A name is refused where it is empty or holds a slash, wherever in it, and else taken.
pub proof fn workspace_names_hold_no_slash(a: Seq<char>, b: Seq<char>)
    ensures
        name_outcome(Seq::empty()) == Err::<(), WorkspaceNameError>(WorkspaceNameError::Empty),
        name_outcome(a + seq!['/'] + b) == Err::<(), WorkspaceNameError>(WorkspaceNameError::Slash),
        a.len() > 0 && (forall|i: int| 0 <= i < a.len() ==> #[trigger] a[i] != '/') ==> name_outcome(a) is Ok,
{
    assert((a + seq!['/'] + b)[a.len() as int] == '/');
    assert((a + seq!['/'] + b).contains('/'));
}

/// The place of a workspace is beside the repository: the repository's path, a hyphen and
/// the name of the workspace, and after them a number where there are more.
pub proof fn workspaces_stand_beside_the_repository(dir: Seq<char>, repo: Seq<char>, name: Seq<char>, k: nat)
    requires
        crate::paths::is_name(crate::text::split(dir, '/').last()),
        repo.len() > 0 && !repo.contains('/') && repo != seq!['.'] && repo != seq!['.', '.'],
    ensures
        has_name(dir + seq!['/'] + repo),
        place(dir + seq!['/'] + repo, name, 0) == dir + seq!['/'] + repo + seq!['-'] + name,
        k > 0 ==> place(dir + seq!['/'] + repo, name, k) == dir + seq!['/'] + repo + seq!['-'] + name + seq!['-']
            + crate::text::decimal(k),
{
    reveal_strlit("/");
    reveal_strlit("-");
    reveal_strlit(".");
    reveal_strlit("..");
    assert("/"@ =~= seq!['/']);
    assert("-"@ =~= seq!['-']);
    assert("."@ =~= seq!['.']);
    assert(".."@ =~= seq!['.', '.']);
    let root = dir + seq!['/'] + repo;
    let above = crate::text::split(dir, '/');
    let parts = crate::text::split(root, '/');
    crate::text::split_of_both(dir, '/', repo);
    crate::text::split_at_each_separator(repo, '/', dir);
    crate::text::split_parts_hold_no_separator(dir, '/');
    assert(parts =~= above.push(repo));
    assert(last_part(parts) == parts.len() - 1);
    assert(parts.take(last_part(parts)) =~= above);
    assert(last_part(above) == above.len() - 1);
    assert(parts.take(last_part(above) + 1) =~= above);
    crate::ui::joining_undoes_splitting(dir, '/');
    assert(parent_of(root) == dir);
    let last = above.last();
    assert(dir.len() > 0 && dir.last() != '/') by {
        let n = above.len() - 1;
        crate::ui::joining_undoes_splitting(dir, '/');
        assert(dir == crate::ui::join(above, seq!['/']));
        assert(dir.last() == last.last());
        assert(crate::text::split(dir, '/')[n][last.len() - 1] != '/');
    }
    assert(repo[0] != '/');
    let base = repo + "-"@ + name;
    assert(base[0] == repo[0]);
    assert(place(root, name, 0) =~= dir + seq!['/'] + repo + seq!['-'] + name);
    if k > 0 {
        let longer = base + "-"@ + crate::text::decimal(k);
        assert(longer[0] == repo[0]);
        assert(place(root, name, k) =~= dir + seq!['/'] + repo + seq!['-'] + name + seq!['-'] + crate::text::decimal(k));
    }
}

/// The workspace that is switched to is the first of that name.
pub proof fn found_workspace_has_the_name(names: Seq<Seq<char>>, name: Seq<char>)
    requires
        names.contains(name),
    ensures
        0 <= find_workspace(names, name) < names.len(),
        names[find_workspace(names, name)] == name,
        forall|j: int| 0 <= j < find_workspace(names, name) ==> #[trigger] names[j] != name,
{
    crate::text::lemma_first_index_range(names, name);
    let i = choose|i: int| 0 <= i < names.len() && names[i] == name;
    if find_workspace(names, name) == names.len() {
        assert(names[i] != name);
    }
}

/// The workspaces that are named in place of the current one are all the others, in order.
pub proof fn others_are_all_but_one(names: Seq<Seq<char>>, name: Seq<char>)
    ensures
        others(names, name) == names.filter(|n: Seq<char>| n != name),
        !others(names, name).contains(name),
    decreases names.len(),
{
    reveal(Seq::filter);
    if names.len() > 0 {
        let front = names.drop_last();
        others_are_all_but_one(front, name);
        let all = others(names, name);
        let before = others(front, name);
        if all.contains(name) {
            let k = choose|k: int| 0 <= k < all.len() && all[k] == name;
            assert(k < before.len());
            assert(before[k] == name);
        }
    }
}

/// What is said of a workspace depends on whether it is the current one and whether it has
/// changes; the current one is marked.
pub proof fn workspaces_are_shown_as_they_stand(w: WorkspaceInfo, checkpoint: Option<u128>)
    ensures
        w.is_current ==> workspace_line(w, checkpoint)[0].text == w.name@ + " (current)"@,
        !w.is_current ==> workspace_line(w, checkpoint)[0].text == w.name@,
        workspace_line(w, checkpoint)[6].text == (if w.is_current {
            if w.has_changes {
                "Working"@
            } else {
                "Current"@
            }
        } else if w.has_changes {
            "Modified"@
        } else {
            "Clean"@
        }),
        checkpoint is Some ==> workspace_line(w, checkpoint)[4].text == crate::ids::ulid_text(checkpoint->0).take(8)
            + "..."@,
        checkpoint is None ==> workspace_line(w, checkpoint)[4].text == "-"@,
        workspace_line(w, checkpoint)[2].text == shown_path(w.path@),
{
}

/// A path of plain characters is shown whole up to 30 of them, and else by its last 27 after
/// three dots.
pub proof fn long_paths_are_cut_in_front(path: Seq<char>)
    requires
        forall|i: int| 0 <= i < path.len() ==> '\0' <= #[trigger] path[i] <= '\u{7f}',
    ensures
        can_be_cut(path),
        path.len() <= 30 ==> shown_path(path) == path,
        path.len() > 30 ==> shown_path(path) == "..."@ + path.skip(path.len() - 27),
{
    assert(vstd::utf8::is_ascii_chars(path));
    vstd::utf8::is_ascii_chars_encode_utf8(path);
    let bytes = vstd::utf8::encode_utf8(path);
    if path.len() > 30 {
        let n = path.len() - 27;
        let tail = path.skip(n);
        assert forall|i: int| 0 <= i < tail.len() implies '\0' <= #[trigger] tail[i] <= '\u{7f}' by {
            assert(tail[i] == path[n + i]);
        }
        assert(vstd::utf8::is_ascii_chars(tail));
        vstd::utf8::is_ascii_chars_encode_utf8(tail);
        let end = vstd::utf8::encode_utf8(tail);
        assert(end =~= bytes.skip(n)) by {
            assert forall|i: int| 0 <= i < tail.len() implies #[trigger] end[i] == bytes[n + i] by {
                assert(tail[i] as u8 == end[i]);
                assert(path[n + i] as u8 == bytes[n + i]);
            }
        }
        vstd::utf8::encode_utf8_decode_utf8(tail);
        vstd::utf8::encode_utf8_valid_utf8(tail);
    }
}

/// A place is taken exactly by a path with the same names, if both start at the root or
/// neither does; slashes and dots between the names do not matter.
pub proof fn places_are_taken_by_the_same_names(a: Seq<char>, b: Seq<char>, existing: Seq<Seq<char>>, i: int)
    ensures
        a.len() > 0 ==> same_place(a + seq!['/'] + b, a + seq!['/', '/'] + b) && same_place(
            a + seq!['/'] + b,
            a + seq!['/', '.', '/'] + b,
        ) && same_place(a + seq!['/'], a),
        0 <= i < existing.len() && same_place(existing[i], a) ==> is_taken(a, existing),
        is_taken(a, existing) ==> exists|k: int|
            0 <= k < existing.len() && crate::paths::names(#[trigger] existing[k]) == crate::paths::names(a),
{
    let e = Seq::<char>::empty();
    let dot = seq!['.'];
    crate::paths::names_stand_between_slashes(a, b);
    crate::paths::names_stand_between_slashes(a, e);
    crate::paths::names_stand_between_slashes(e, b);
    crate::paths::names_stand_between_slashes(dot, b);
    assert(!e.contains('/'));
    assert(!dot.contains('/'));
    crate::paths::names_stand_between_slashes(a, e + seq!['/'] + b);
    crate::paths::names_stand_between_slashes(a, dot + seq!['/'] + b);
    assert(a + seq!['/'] + (e + seq!['/'] + b) =~= a + seq!['/', '/'] + b);
    assert(a + seq!['/'] + (dot + seq!['/'] + b) =~= a + seq!['/', '.', '/'] + b);
    assert(a + seq!['/'] + e =~= a + seq!['/']);
    let none = Seq::<Seq<char>>::empty();
    assert(none + crate::paths::names(b) =~= crate::paths::names(b));
    assert(crate::paths::names(a) + crate::paths::names(e) =~= crate::paths::names(a));
    if a.len() > 0 {
        assert((a + seq!['/'] + b)[0] == a[0]);
        assert((a + seq!['/', '/'] + b)[0] == a[0]);
        assert((a + seq!['/', '.', '/'] + b)[0] == a[0]);
        assert((a + seq!['/'])[0] == a[0]);
    }
    if is_taken(a, existing) {
        let k = choose|k: int| 0 <= k < existing.len() && same_place(#[trigger] existing[k], a);
        assert(crate::paths::names(existing[k]) == crate::paths::names(a));
    }
}

} // verus!
