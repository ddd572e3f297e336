//! Searching an installation for an executable: directory after directory, and of
//! what is found the one that is least deep.
use vstd::prelude::*;

use crate::account::{base_name, base_of, exe_path, exe_place, or_text};
use crate::path::{components, depth, file_name, name_of};
use crate::product::{find_settings_exe, settings_of};
use crate::text::{
    contains, ends, ends_with, lowercase, occurs, opt_str, opt_text, same, to_lowercase,
};

verus! {

/// An entry of a directory. `id` tells it from all others; `name` is the name of
/// the file, where it is text.
#[derive(Debug)]
pub struct Entry {
    pub id: usize,
    pub is_dir: bool,
    pub name: Option<String>,
    pub path: String,
}

/// What is searched for.
#[derive(Debug)]
pub enum Wanted {
    /// A file of this name.
    Named(String),
    /// An executable that looks like a settings application.
    Settings,
}

/// Part of an installer, or what installers leave behind.
pub open spec fn is_junk(name: Seq<char>, path: Seq<char>) -> bool {
    ||| occurs(name, "vcredist"@)
    ||| occurs(name, "vc_redist"@)
    ||| occurs(name, "dxsetup"@)
    ||| occurs(name, "directx"@)
    ||| occurs(name, "redist"@)
    ||| occurs(name, "unins"@)
    ||| occurs(lowercase(path), "support/installs"@)
}

/// An executable that looks like a settings application.
pub open spec fn looks_like_settings(name: Seq<char>, path: Seq<char>) -> bool {
    let n = lowercase(name);
    ends(n, ".exe"@) && (occurs(n, "setting"@) || occurs(n, "config"@)) && !is_junk(n, path)
}

/// A file that is searched for.
pub open spec fn is_wanted(e: Entry, w: Wanted) -> bool {
    match w {
        Wanted::Named(base) => opt_text(e.name) == Some(base@),
        Wanted::Settings => looks_like_settings(
            match e.name {
                Some(n) => n@,
                None => seq![],
            },
            e.path@,
        ),
    }
}

/// Whether a file looks like a settings application.
pub fn is_settings_exe(name: &str, path: &str) -> (r: bool)
    ensures
        r == looks_like_settings(name@, path@),
{
    let lower = to_lowercase(name);
    let n = lower.as_str();
    if !ends_with(n, ".exe") {
        return false;
    }
    let junk = contains(n, "vcredist") || contains(n, "vc_redist") || contains(n, "dxsetup")
        || contains(n, "directx") || contains(n, "redist") || contains(n, "unins") || contains(
        to_lowercase(path).as_str(),
        "support/installs",
    );
    (contains(n, "setting") || contains(n, "config")) && !junk
}

fn wanted(e: &Entry, w: &Wanted) -> (r: bool)
    ensures
        r == is_wanted(*e, *w),
{
    match w {
        Wanted::Named(base) => match &e.name {
            Some(n) => same(n.as_str(), base.as_str()),
            None => false,
        },
        Wanted::Settings => match &e.name {
            Some(n) => is_settings_exe(n.as_str(), e.path.as_str()),
            None => {
                proof {
                    reveal_strlit("");
                    assert(""@ =~= Seq::<char>::empty());
                }
                is_settings_exe("", e.path.as_str())
            },
        },
    }
}

/// A file that was found, and how deep it is.
#[derive(Clone, Copy, Debug, PartialEq, Eq, Structural)]
pub struct Found {
    pub id: usize,
    pub depth: usize,
}

/// A search: the directories that are left to visit, and what was found so far.
#[derive(Debug)]
pub struct Scan {
    pub pending: Vec<usize>,
    pub found: Vec<Found>,
}

/// The directories among the first `n` entries.
pub open spec fn dirs_in(entries: Seq<Entry>, n: int) -> Seq<usize>
    decreases n,
{
    if n <= 0 || n > entries.len() {
        seq![]
    } else if entries[n - 1].is_dir {
        dirs_in(entries, n - 1).push(entries[n - 1].id)
    } else {
        dirs_in(entries, n - 1)
    }
}

/// The files among the first `n` entries that are searched for, with their depths.
pub open spec fn found_in(entries: Seq<Entry>, w: Wanted, n: int) -> Seq<(usize, nat)>
    decreases n,
{
    if n <= 0 || n > entries.len() {
        seq![]
    } else if !entries[n - 1].is_dir && is_wanted(entries[n - 1], w) {
        found_in(entries, w, n - 1).push((entries[n - 1].id, depth(entries[n - 1].path@)))
    } else {
        found_in(entries, w, n - 1)
    }
}

/// What was found, with its depths.
pub open spec fn finds(l: Seq<Found>) -> Seq<(usize, nat)> {
    Seq::new(l.len(), |i: int| (l[i].id, l[i].depth as nat))
}

/// The first of the least deep finds.
pub open spec fn is_shallowest(l: Seq<(usize, nat)>, k: int) -> bool {
    &&& 0 <= k < l.len()
    &&& forall|i: int| 0 <= i < l.len() ==> l[k].1 <= (#[trigger] l[i]).1
    &&& forall|i: int| 0 <= i < k ==> l[k].1 < (#[trigger] l[i]).1
}

impl Scan {
    /// A search that has not visited its root yet.
    pub fn new(root: usize) -> (r: Scan)
        ensures
            r.pending@ == seq![root],
            finds(r.found@) == Seq::<(usize, nat)>::empty(),
    {
        let mut pending: Vec<usize> = Vec::new();
        pending.push(root);
        let found: Vec<Found> = Vec::new();
        assert(finds(found@) == Seq::<(usize, nat)>::empty());
        assert(pending@ == seq![root]);
        Scan { pending, found }
    }

    /// The directory to visit next: the one that was met last.
    pub fn next_dir(&mut self) -> (r: Option<usize>)
        ensures
            final(self).found == old(self).found,
            match r {
                Some(d) => old(self).pending@.len() > 0 && d == old(self).pending@.last()
                    && final(self).pending@ == old(self).pending@.drop_last(),
                None => old(self).pending@.len() == 0 && final(self).pending@
                    == old(self).pending@,
            },
    {
        self.pending.pop()
    }

    /// Takes the entries of a directory. A directory that cannot be read has none.
    pub fn visit(&mut self, entries: &Vec<Entry>, w: &Wanted)
        ensures
            final(self).pending@ == old(self).pending@ + dirs_in(
                entries@,
                entries@.len() as int,
            ),
            finds(final(self).found@) == finds(old(self).found@) + found_in(
                entries@,
                *w,
                entries@.len() as int,
            ),
    {
        let mut i: usize = 0;
        while i < entries.len()
            invariant
                i <= entries.len(),
                self.pending@ == old(self).pending@ + dirs_in(entries@, i as int),
                finds(self.found@) == finds(old(self).found@) + found_in(entries@, *w, i as int),
            decreases entries.len() - i,
        {
            let e = &entries[i];
            if e.is_dir {
                self.pending.push(e.id);
                assert(self.pending@ == old(self).pending@ + dirs_in(entries@, i + 1));
            } else if wanted(e, w) {
                let ghost before = self.found@;
                let f = Found { id: e.id, depth: components(e.path.as_str()) };
                self.found.push(f);
                assert(finds(self.found@) =~= finds(before).push((e.id, depth(e.path@))));
                assert(finds(self.found@) =~= finds(old(self).found@) + found_in(
                    entries@,
                    *w,
                    i + 1,
                ));
            }
            i += 1;
        }
    }

    /// What the search gives: of what was found the one that is least deep, the
    /// first of those.
    pub fn best(&self) -> (r: Option<usize>)
        ensures
            match r {
                Some(id) => exists|k: int| #[trigger]
                    is_shallowest(finds(self.found@), k) && finds(self.found@)[k].0 == id,
                None => self.found@.len() == 0,
            },
    {
        if self.found.len() == 0 {
            return None;
        }
        let ghost l = finds(self.found@);
        let mut k: usize = 0;
        let mut i: usize = 1;
        while i < self.found.len()
            invariant
                k < i <= self.found.len(),
                l == finds(self.found@),
                forall|j: int| 0 <= j < i ==> l[k as int].1 <= (#[trigger] l[j]).1,
                forall|j: int| 0 <= j < k ==> l[k as int].1 < (#[trigger] l[j]).1,
            decreases self.found.len() - i,
        {
            if self.found[i].depth < self.found[k].depth {
                assert(l[i as int].1 < l[k as int].1);
                k = i;
            } else {
                assert(l[k as int].1 <= l[i as int].1);
            }
            i += 1;
        }
        assert(is_shallowest(l, k as int));
        Some(self.found[k].id)
    }
}

proof fn lemma_found_member(entries: Seq<Entry>, w: Wanted, n: int, k: int)
    requires
        0 <= k < n <= entries.len(),
        !entries[k].is_dir,
        is_wanted(entries[k], w),
    ensures
        found_in(entries, w, n).contains((entries[k].id, depth(entries[k].path@))),
    decreases n,
{
    let x = (entries[k].id, depth(entries[k].path@));
    if k == n - 1 {
        assert(found_in(entries, w, n).last() == x);
    } else {
        lemma_found_member(entries, w, n - 1, k);
        let before = found_in(entries, w, n - 1);
        let i = before.index_of(x);
        assert(found_in(entries, w, n)[i] == x);
    }
}

/// A search that met a wanted file gives one that is no deeper: of a game's own
/// executable and deeper copies of it, the game's own.
pub proof fn law_search_gives_the_shallowest(
    earlier: Seq<(usize, nat)>,
    entries: Seq<Entry>,
    w: Wanted,
    k: int,
    best: int,
)
    requires
        0 <= k < entries.len(),
        !entries[k].is_dir,
        is_wanted(entries[k], w),
        is_shallowest(earlier + found_in(entries, w, entries.len() as int), best),
    ensures
        (earlier + found_in(entries, w, entries.len() as int))[best].1 <= depth(entries[k].path@),
{
    let all = found_in(entries, w, entries.len() as int);
    let x = (entries[k].id, depth(entries[k].path@));
    lemma_found_member(entries, w, entries.len() as int, k);
    let i = all.index_of(x);
    assert((earlier + all)[earlier.len() + i] == x);
}

// ---------------------------------------------------------------------------
// The settings application
// ---------------------------------------------------------------------------

/// How the settings application of a game is searched for.
#[derive(Debug)]
pub enum SettingsSearch {
    /// At this path, and where it is not there under this name.
    Asked { path: String, base: String },
    /// Under this name, and where there is no such file by its looks.
    Named(String),
    /// By its looks.
    Looks,
}

/// The name of the settings application that a configuration names.
pub open spec fn settings_base(config: Option<Seq<char>>) -> Option<Seq<char>> {
    match config {
        Some(c) => match settings_of(c) {
            Some(rel) => base_of(rel),
            None => None,
        },
        None => None,
    }
}

/// How the settings application of a game is searched for: where the user asks for
/// one, there; else by what its configuration names, and else by its looks.
pub fn settings_search(asked: Option<&str>, dir: &str, config: Option<&str>) -> (r: SettingsSearch)
    ensures
        match r {
            SettingsSearch::Asked { path, base } => asked matches Some(rel) && path@ == exe_place(
                dir@,
                rel@,
            ) && base@ == or_text(name_of(path@), seq![]),
            SettingsSearch::Named(base) => asked is None && settings_base(opt_str(config)) == Some(
                base@,
            ),
            SettingsSearch::Looks => asked is None && settings_base(opt_str(config)) is None,
        },
{
    if let Some(rel) = asked {
        let path = exe_path(dir, rel);
        let base = match file_name(path.as_str()) {
            Some(n) => n,
            None => String::new(),
        };
        return SettingsSearch::Asked { path, base };
    }
    if let Some(c) = config {
        if let Some(rel) = find_settings_exe(c) {
            if let Some(base) = base_name(rel.as_str()) {
                return SettingsSearch::Named(base);
            }
        }
    }
    SettingsSearch::Looks
}

// ---------------------------------------------------------------------------
// What a visit takes from a directory
// ---------------------------------------------------------------------------

proof fn lemma_dirs_in(entries: Seq<Entry>, n: int)
    requires
        0 <= n <= entries.len(),
    ensures
        dirs_in(entries, n) == entries.take(n).filter(|e: Entry| e.is_dir).map_values(
            |e: Entry| e.id,
        ),
    decreases n,
{
    reveal(Seq::filter);
    if n > 0 {
        lemma_dirs_in(entries, n - 1);
        assert(entries.take(n).drop_last() =~= entries.take(n - 1));
        assert(entries.take(n).last() == entries[n - 1]);
    }
}

proof fn lemma_found_in(entries: Seq<Entry>, w: Wanted, n: int)
    requires
        0 <= n <= entries.len(),
    ensures
        found_in(entries, w, n) == entries.take(n).filter(
            |e: Entry| !e.is_dir && is_wanted(e, w),
        ).map_values(|e: Entry| (e.id, depth(e.path@))),
    decreases n,
{
    reveal(Seq::filter);
    if n > 0 {
        lemma_found_in(entries, w, n - 1);
        assert(entries.take(n).drop_last() =~= entries.take(n - 1));
        assert(entries.take(n).last() == entries[n - 1]);
    }
}

/// A visit leaves all directories to be visited, and no files, in their order; and finds
/// all the files that are wanted, and no directories, each with its depth.
pub proof fn law_visit_takes_all_of_a_directory(entries: Seq<Entry>, w: Wanted)
    ensures
        dirs_in(entries, entries.len() as int) == entries.filter(|e: Entry| e.is_dir).map_values(
            |e: Entry| e.id,
        ),
        found_in(entries, w, entries.len() as int) == entries.filter(
            |e: Entry| !e.is_dir && is_wanted(e, w),
        ).map_values(|e: Entry| (e.id, depth(e.path@))),
{
    lemma_dirs_in(entries, entries.len() as int);
    lemma_found_in(entries, w, entries.len() as int);
    assert(entries.take(entries.len() as int) =~= entries);
}

/// A file is wanted by its whole name, letter for letter, and one without a name is not.
pub proof fn law_file_is_wanted_by_its_name(e: Entry, base: String)
    ensures
        is_wanted(e, Wanted::Named(base)) <==> (e.name matches Some(n) && n@ == base@),
{
}

/// A settings application is an executable whose name speaks of settings or of a
/// configuration; an installer or what is in the directory of installers is none.
pub proof fn law_looks_of_a_settings_application(e: Entry, n: String)
    requires
        e.name == Some(n),
    ensures
        is_wanted(e, Wanted::Settings) ==> ends(lowercase(n@), ".exe"@),
        is_wanted(e, Wanted::Settings) ==> occurs(lowercase(n@), "setting"@) || occurs(
            lowercase(n@),
            "config"@,
        ),
        occurs(lowercase(n@), "redist"@) || occurs(lowercase(n@), "vcredist"@) || occurs(
            lowercase(n@),
            "vc_redist"@,
        ) || occurs(lowercase(n@), "dxsetup"@) || occurs(lowercase(n@), "directx"@) || occurs(
            lowercase(n@),
            "unins"@,
        ) || occurs(lowercase(e.path@), "support/installs"@) ==> !is_wanted(e, Wanted::Settings),
        ends(lowercase(n@), ".exe"@) && (occurs(lowercase(n@), "setting"@) || occurs(
            lowercase(n@),
            "config"@,
        )) && !is_wanted(e, Wanted::Settings) ==> occurs(lowercase(n@), "redist"@) || occurs(
            lowercase(n@),
            "vcredist"@,
        ) || occurs(lowercase(n@), "vc_redist"@) || occurs(lowercase(n@), "dxsetup"@) || occurs(
            lowercase(n@),
            "directx"@,
        ) || occurs(lowercase(n@), "unins"@) || occurs(lowercase(e.path@), "support/installs"@),
{
}

/// Of what was found the least deep is the best, and of equals the first; there is one
/// wherever something was found.
pub proof fn law_best_is_least_deep(l: Seq<(usize, nat)>, k: int, i: int)
    requires
        0 <= i < l.len(),
    ensures
        is_shallowest(l, k) ==> 0 <= k < l.len() && l[k].1 <= l[i].1 && (l[k].1 == l[i].1 ==> k
            <= i),
        exists|b: int| is_shallowest(l, b),
{
    lemma_some_shallowest(l);
}

proof fn lemma_some_shallowest(l: Seq<(usize, nat)>)
    requires
        l.len() > 0,
    ensures
        exists|b: int| is_shallowest(l, b),
    decreases l.len(),
{
    if l.len() == 1 {
        assert(is_shallowest(l, 0));
    } else {
        let init = l.drop_last();
        lemma_some_shallowest(init);
        let b = choose|b: int| is_shallowest(init, b);
        let last = l.len() - 1;
        assert(init[b] == l[b]);
        assert forall|i: int| 0 <= i < last implies init[i] == #[trigger] l[i] by {}
        if l[last].1 < l[b].1 {
            assert forall|i: int| 0 <= i < last implies l[last].1 < (#[trigger] l[i]).1 by {
                assert(init[i] == l[i]);
            }
            assert(is_shallowest(l, last));
        } else {
            assert forall|i: int| 0 <= i < l.len() implies l[b].1 <= (#[trigger] l[i]).1 by {
                if i < last {
                    assert(init[i] == l[i]);
                }
            }
            assert forall|i: int| 0 <= i < b implies l[b].1 < (#[trigger] l[i]).1 by {
                assert(init[i] == l[i]);
            }
            assert(is_shallowest(l, b));
        }
    }
}

/// A settings application that is asked for is looked for where it was said to be and
/// under its name; without a wish under the name that the configuration gives; and else
/// by its looks.
pub proof fn law_where_settings_are_looked_for(
    asked: Option<&str>,
    dir: &str,
    config: Option<&str>,
    r: SettingsSearch,
)
    requires
        call_ensures(settings_search, (asked, dir, config), r),
    ensures
        asked matches Some(rel) ==> (r matches SettingsSearch::Asked { path, base } && path@
            == exe_place(dir@, rel@) && (name_of(path@) matches Some(n) ==> base@ == n)),
        asked is None ==> (config matches Some(c) ==> settings_of(c@) matches Some(rel) ==> base_of(
            rel,
        ) matches Some(n) ==> (r matches SettingsSearch::Named(base) && base@ == n)),
        asked is None && (config matches Some(c) ==> settings_of(c@) is None) ==> r is Looks,
{
}

} // verus!
