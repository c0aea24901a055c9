//! Completion of a typed path: which directory to list, which names fit,
//! and what the line becomes. The listing itself is done by the caller.
use vstd::prelude::*;

use crate::paths::{
    ends_with,
    path_file_name,
    path_join,
    path_parent,
    starts_with,
    std_path_file_name,
    std_path_join,
    std_path_parent,
    str_ends_with,
    str_starts_with,
};
use crate::text::push_str;
use crate::utils::{
    DirItem,
    UpdateResult,
    common_len,
    file_names,
    get_common_filename_prefix,
    names_prefix,
};

verus! {

/// The paths of directory entries.
pub open spec fn paths_of(items: Seq<DirItem>) -> Seq<Seq<char>> {
    items.map_values(|d: DirItem| d.path@)
}

/// The paths of optional directory entries.
pub open spec fn entries_view(o: Option<Vec<DirItem>>) -> Option<Seq<Seq<char>>> {
    match o {
        Some(v) => Some(paths_of(v@)),
        None => None,
    }
}

/// The text of an optional string.
pub open spec fn opt_str(o: Option<&str>) -> Option<Seq<char>> {
    match o {
        Some(s) => Some(s@),
        None => None,
    }
}

/// The path completed for a typed line: `./` for nothing typed, the line
/// under `./` unless it starts at `./`, `../` or `/`.
pub open spec fn suggest_target(s: Seq<char>) -> Seq<char> {
    if s.len() == 0 {
        "./"@
    } else if !(starts_with(s, "./"@) || starts_with(s, "../"@) || starts_with(s, "/"@)) {
        std_path_join("./"@, s)
    } else {
        s
    }
}

/// The path that the line `input` is completed as.
pub fn suggestion_path(input: &str) -> (r: String)
    ensures
        r@ == suggest_target(input@),
{
    proof {
        reveal_strlit("./");
        reveal_strlit("../");
        reveal_strlit("/");
    }
    if input.is_empty() {
        String::from_str("./")
    } else if !(str_starts_with(input, "./") || str_starts_with(input, "../") || str_starts_with(
        input,
        "/",
    )) {
        path_join("./", input)
    } else {
        String::from_str(input)
    }
}

/// Where to look for completions.
#[derive(Debug)]
pub enum SplitStep {
    /// List this directory; keep the names that start with the prefix.
    Split(String, Option<String>),
    /// The path is a directory with a parent: list the parent (its path,
    /// then the path's name); how many of its names start with that name
    /// decides where to look.
    ListParent(String, Option<String>),
    /// Nothing to complete.
    NoTarget,
}

/// The value of a `SplitStep`.
pub enum SplitView {
    Split(Seq<char>, Option<Seq<char>>),
    ListParent(Seq<char>, Option<Seq<char>>),
    NoTarget,
}

/// The text of an optional string.
pub open spec fn opt_text(o: Option<String>) -> Option<Seq<char>> {
    match o {
        Some(s) => Some(s@),
        None => None,
    }
}

impl View for SplitStep {
    type V = SplitView;

    open spec fn view(&self) -> SplitView {
        match self {
            SplitStep::Split(d, p) => SplitView::Split(d@, opt_text(*p)),
            SplitStep::ListParent(d, n) => SplitView::ListParent(d@, opt_text(*n)),
            SplitStep::NoTarget => SplitView::NoTarget,
        }
    }
}

/// Where to look for completions of the line `input` whose path is `path`
/// (`is_dir`: whether that path is a directory). A line that ends in `.`
/// is completed in its parent (`.` where there is none or it is empty)
/// with its last component, or `.`, as prefix; a directory written with a
/// closing `/` is listed whole; another directory depends on its parent's
/// names; any other path is completed in its parent with its name.
pub open spec fn split_spec(input: Seq<char>, path: Seq<char>, is_dir: bool) -> SplitView {
    if ends_with(input, "."@) {
        let d = match std_path_parent(path) {
            Some(p) => p,
            None => "."@,
        };
        let f = match std_path_file_name(path) {
            Some(n) => n,
            None => "."@,
        };
        SplitView::Split(
            if d.len() == 0 {
                "."@
            } else {
                d
            },
            Some(f),
        )
    } else if is_dir {
        if ends_with(input, "/"@) {
            SplitView::Split(path, None)
        } else {
            match std_path_parent(path) {
                Some(p) => SplitView::ListParent(p, std_path_file_name(path)),
                None => SplitView::Split(path, None),
            }
        }
    } else {
        match (std_path_parent(path), std_path_file_name(path)) {
            (Some(p), Some(n)) => SplitView::Split(p, Some(n)),
            _ => SplitView::NoTarget,
        }
    }
}

/// Where to look for completions of the line `input` whose path is `path`.
pub fn split_target(input: &str, path: &str, is_dir: bool) -> (r: SplitStep)
    ensures
        r@ == split_spec(input@, path@, is_dir),
{
    proof {
        reveal_strlit(".");
        reveal_strlit("/");
    }
    if str_ends_with(input, ".") {
        let d = match path_parent(path) {
            Some(p) => p,
            None => String::from_str("."),
        };
        let d = if d.as_str().is_empty() {
            String::from_str(".")
        } else {
            d
        };
        let f = match path_file_name(path) {
            Some(n) => n,
            None => String::from_str("."),
        };
        SplitStep::Split(d, Some(f))
    } else if is_dir {
        if str_ends_with(input, "/") {
            SplitStep::Split(String::from_str(path), None)
        } else {
            match path_parent(path) {
                Some(p) => SplitStep::ListParent(p, path_file_name(path)),
                None => SplitStep::Split(String::from_str(path), None),
            }
        }
    } else {
        match (path_parent(path), path_file_name(path)) {
            (Some(p), Some(n)) => SplitStep::Split(p, Some(n)),
            _ => SplitStep::NoTarget,
        }
    }
}

/// How many of `names` start with `p`.
pub open spec fn count_starting(names: Seq<Seq<char>>, p: Seq<char>) -> nat
    decreases names.len(),
{
    if names.len() == 0 {
        0
    } else {
        count_starting(names.drop_last(), p) + if starts_with(names.last(), p) {
            1nat
        } else {
            0nat
        }
    }
}

/// The directory to list and the prefix for the directory `path`, whose
/// parent `parent` holds the names `siblings`: the parent, with the name
/// of `path` as prefix, where more than one of its names start with that
/// name (an absent name counting as empty); else `path` itself, whole.
pub open spec fn sibling_split(
    path: Seq<char>,
    parent: Seq<char>,
    name: Option<Seq<char>>,
    siblings: Seq<Seq<char>>,
) -> (Seq<char>, Option<Seq<char>>) {
    let p = match name {
        Some(n) => n,
        None => seq![],
    };
    if count_starting(siblings, p) > 1 {
        (parent, name)
    } else {
        (path, None)
    }
}

/// The directory to list and the prefix for a directory that has a parent,
/// given the names found in the parent.
pub fn split_with_siblings(path: &str, parent: String, name: Option<String>, siblings: &[String]) -> (r: (
    String,
    Option<String>,
))
    ensures
        (r.0@, opt_text(r.1)) == sibling_split(
            path@,
            parent@,
            opt_text(name),
            siblings@.map_values(|s: String| s@),
        ),
{
    let ghost all = siblings@.map_values(|s: String| s@);
    let p = match &name {
        Some(n) => String::from_str(n.as_str()),
        None => String::new(),
    };
    let mut count: usize = 0;
    let mut i: usize = 0;
    while i < siblings.len()
        invariant
            i <= siblings@.len(),
            all == siblings@.map_values(|s: String| s@),
            count == count_starting(all.take(i as int), p@),
            count <= i,
        decreases siblings@.len() - i,
    {
        assert(all.take(i + 1).drop_last() =~= all.take(i as int));
        assert(all.take(i + 1).last() == siblings@[i as int]@);
        if str_starts_with(siblings[i].as_str(), p.as_str()) {
            count = count + 1;
        }
        i += 1;
    }
    assert(all.take(siblings@.len() as int) =~= all);
    if count > 1 {
        (parent, name)
    } else {
        (String::from_str(path), None)
    }
}

/// Whether the entry at path `p` is kept for the prefix: every entry where
/// there is none, else those whose file name starts with it.
pub open spec fn name_fits(p: Seq<char>, prefix: Option<Seq<char>>) -> bool {
    match prefix {
        None => true,
        Some(q) => std_path_file_name(p) matches Some(n) && starts_with(n, q),
    }
}

/// The paths kept for the prefix, in their order.
pub open spec fn keep_prefixed(paths: Seq<Seq<char>>, prefix: Option<Seq<char>>) -> Seq<Seq<char>>
    decreases paths.len(),
{
    if paths.len() == 0 {
        seq![]
    } else {
        let r = keep_prefixed(paths.drop_last(), prefix);
        if name_fits(paths.last(), prefix) {
            r.push(paths.last())
        } else {
            r
        }
    }
}

/// The entries whose file names start with `prefix`; all of them where
/// there is no prefix.
pub fn filter_entries(entries: Vec<DirItem>, prefix: Option<&str>) -> (r: Vec<DirItem>)
    ensures
        paths_of(r@) == keep_prefixed(paths_of(entries@), opt_str(prefix)),
{
    let ghost all = paths_of(entries@);
    let mut r: Vec<DirItem> = Vec::new();
    let mut i: usize = 0;
    while i < entries.len()
        invariant
            i <= entries@.len(),
            all == paths_of(entries@),
            paths_of(r@) == keep_prefixed(all.take(i as int), opt_str(prefix)),
        decreases entries@.len() - i,
    {
        assert(all.take(i + 1).drop_last() =~= all.take(i as int));
        assert(all.take(i + 1).last() == entries@[i as int].path@);
        let keep = match prefix {
            None => true,
            Some(q) => match entries[i].get_file_name() {
                Some(n) => str_starts_with(n.as_str(), q),
                None => false,
            },
        };
        if keep {
            let ghost before = paths_of(r@);
            r.push(DirItem::new(String::from_str(entries[i].path())));
            assert(paths_of(r@) =~= before.push(entries@[i as int].path@));
        }
        i += 1;
    }
    assert(all.take(entries@.len() as int) =~= all);
    r
}

/// What the line becomes for the entries `paths` kept in directory `dir`
/// (`first_is_dir`: whether the first of them is a directory), and the
/// entries to show: the line unchanged where none fits; the one entry's
/// path, with `/` after a directory, where one fits; where several fit,
/// the directory joined with their names' common prefix when that prefix
/// is not empty and not the typed prefix itself, else the line unchanged,
/// with the entries shown.
pub open spec fn completion(
    input: Seq<char>,
    dir: Seq<char>,
    prefix: Option<Seq<char>>,
    paths: Seq<Seq<char>>,
    names: Seq<Option<Seq<char>>>,
    first_is_dir: bool,
) -> (Seq<char>, bool, Option<Seq<Seq<char>>>) {
    if paths.len() == 0 {
        (input, false, None)
    } else if paths.len() == 1 {
        (
            paths[0] + if first_is_dir {
                "/"@
            } else {
                seq![]
            },
            true,
            None,
        )
    } else {
        match names_prefix(names) {
            Some(common) => if common.len() > 0 && Some(common) != prefix {
                (std_path_join(dir, common), true, Some(paths))
            } else {
                (input, false, Some(paths))
            },
            None => (input, false, Some(paths)),
        }
    }
}

/// What the line `input` becomes for the entries `filtered` kept in
/// directory `dir`, and the entries to show.
pub fn complete_from(
    input: &str,
    dir: &str,
    prefix: Option<&str>,
    filtered: Vec<DirItem>,
    first_is_dir: bool,
) -> (r: (UpdateResult<String>, Option<Vec<DirItem>>))
    ensures
        (r.0.content@, r.0.changed, entries_view(r.1)) == completion(
            input@,
            dir@,
            opt_str(prefix),
            paths_of(filtered@),
            file_names(filtered@),
            first_is_dir,
        ),
{
    proof {
        reveal_strlit("/");
    }
    if filtered.len() == 0 {
        return (UpdateResult::not_updated(String::from_str(input)), None);
    }
    if filtered.len() == 1 {
        let mut p = String::from_str(filtered[0].path());
        if first_is_dir {
            push_str(&mut p, "/");
        }
        return (UpdateResult::updated(p), None);
    }
    match get_common_filename_prefix(filtered.as_slice()) {
        Some(common) => {
            let same = match prefix {
                Some(q) => common == String::from_str(q),
                None => false,
            };
            if !same {
                let joined = path_join(dir, common.as_str());
                (UpdateResult::updated(joined), Some(filtered))
            } else {
                (UpdateResult::not_updated(String::from_str(input)), Some(filtered))
            }
        },
        None => (UpdateResult::not_updated(String::from_str(input)), Some(filtered)),
    }
}


proof fn lemma_common_len_at_least(a: Seq<char>, b: Seq<char>, m: nat)
    requires
        m <= a.len(),
        m <= b.len(),
        a.take(m as int) == b.take(m as int),
    ensures
        common_len(a, b) >= m,
    decreases m,
{
    if m > 0 {
        let ta = a.take(m as int);
        let tb = b.take(m as int);
        assert(ta[0] == a[0]);
        assert(tb[0] == b[0]);
        assert(a[0] == b[0]);
        assert(a.drop_first().take(m - 1) =~= a.take(m as int).drop_first());
        assert(b.drop_first().take(m - 1) =~= b.take(m as int).drop_first());
        lemma_common_len_at_least(a.drop_first(), b.drop_first(), (m - 1) as nat);
    }
}

/// Completing among names that all start with `q` never gives up what was
/// typed: their common prefix starts with `q` as well.
pub proof fn lemma_common_prefix_keeps_typed(names: Seq<Option<Seq<char>>>, q: Seq<char>)
    requires
        names.len() > 0,
        forall|i: int| 0 <= i < names.len() ==> (#[trigger] names[i] matches Some(n) && starts_with(n, q)),
    ensures
        names_prefix(names) matches Some(c) && starts_with(c, q),
    decreases names.len(),
{
    if names.len() > 1 {
        let init = names.drop_last();
        assert forall|i: int| 0 <= i < init.len() implies (#[trigger] init[i] matches Some(n) && starts_with(n, q)) by {
            assert(init[i] == names[i]);
        }
        lemma_common_prefix_keeps_typed(init, q);
        let p = names_prefix(init)->0;
        let n = names.last()->0;
        assert(names.last() == names[names.len() - 1]);
        lemma_common_len_at_least(p, n, q.len());
        let c = p.take(common_len(p, n) as int);
        assert(common_len(p, n) <= p.len()) by {
            lemma_common_len_bound(p, n);
        }
        assert(c.take(q.len() as int) =~= p.take(q.len() as int));
    } else {
        assert(names[0] matches Some(n) && starts_with(n, q));
    }
}

proof fn lemma_common_len_bound(a: Seq<char>, b: Seq<char>)
    ensures
        common_len(a, b) <= a.len(),
        common_len(a, b) <= b.len(),
    decreases a.len(),
{
    if a.len() > 0 && b.len() > 0 && a[0] == b[0] {
        lemma_common_len_bound(a.drop_first(), b.drop_first());
    }
}

} // verus!
