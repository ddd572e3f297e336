//! What the product configuration of a game says: its title, the executables it
//! is started with, its settings application and its install location in the
//! registry.
use vstd::prelude::*;
use vstd::utf8::is_ascii_chars;

use crate::text::{
    contains, ends, ends_with, lemma_texts_push, lowercase, occurs, occurs_at, opt_str, opt_text,
    owned, same, texts, to_lowercase, to_uppercase, trim, trimmed, upper_ascii, uppercase,
};

verus! {

/// A configuration document. Only what the searches below tell apart is kept:
/// `Other` stands for null, booleans and numbers.
#[derive(Debug)]
pub enum Yaml {
    Text(String),
    Mapping(Vec<(Yaml, Yaml)>),
    Sequence(Vec<Yaml>),
    Tagged(Box<Yaml>),
    Other,
}

/// What a document says.
pub enum Doc {
    Text(Seq<char>),
    Mapping(Seq<(Doc, Doc)>),
    Sequence(Seq<Doc>),
    Tagged(Box<Doc>),
    Other,
}

/// What a document says.
pub open spec fn doc_of(v: Yaml) -> Doc
    decreases v,
{
    match v {
        Yaml::Text(s) => Doc::Text(s@),
        Yaml::Mapping(m) => Doc::Mapping(
            Seq::new(
                m@.len(),
                |i: int|
                    if 0 <= i < m@.len() {
                        (doc_of(m@[i].0), doc_of(m@[i].1))
                    } else {
                        (Doc::Other, Doc::Other)
                    },
            ),
        ),
        Yaml::Sequence(s) => Doc::Sequence(
            Seq::new(
                s@.len(),
                |i: int|
                    if 0 <= i < s@.len() {
                        doc_of(s@[i])
                    } else {
                        Doc::Other
                    },
            ),
        ),
        Yaml::Tagged(inner) => Doc::Tagged(Box::new(doc_of(*inner))),
        Yaml::Other => Doc::Other,
    }
}

impl View for Yaml {
    type V = Doc;

    open spec fn view(&self) -> Doc {
        doc_of(*self)
    }
}

/// What the entries of a mapping say.
pub open spec fn entries(m: Seq<(Yaml, Yaml)>) -> Seq<(Doc, Doc)> {
    Seq::new(m.len(), |i: int| (m[i].0@, m[i].1@))
}

/// What the items of a sequence say.
pub open spec fn items(s: Seq<Yaml>) -> Seq<Doc> {
    Seq::new(s.len(), |i: int| s[i]@)
}

proof fn lemma_mapping(m: Vec<(Yaml, Yaml)>)
    ensures
        Yaml::Mapping(m)@ == Doc::Mapping(entries(m@)),
{
    if let Doc::Mapping(d) = Yaml::Mapping(m)@ {
        assert(d =~= entries(m@));
    }
}

proof fn lemma_sequence(s: Vec<Yaml>)
    ensures
        Yaml::Sequence(s)@ == Doc::Sequence(items(s@)),
{
    if let Doc::Sequence(d) = Yaml::Sequence(s)@ {
        assert(d =~= items(s@));
    }
}

/// A YAML value of `serde_yaml`.
#[verifier::external_type_specification]
#[verifier::external_body]
pub struct ExYamlValue(serde_yaml::Value);

/// The value that `serde_yaml` reads from a text.
pub uninterp spec fn yaml_value(text: Seq<char>) -> Option<serde_yaml::Value>;

/// What a value of `serde_yaml` holds.
pub uninterp spec fn yaml_contents(v: serde_yaml::Value) -> Doc;

/// `serde_yaml::from_str`. The result is named; there is none where the text is
/// no YAML document.
#[verifier::external_body]
fn yaml_from_str(text: &str) -> (r: Option<serde_yaml::Value>)
    ensures
        r == yaml_value(text@),
{
    serde_yaml::from_str::<serde_yaml::Value>(text).ok()
}

/// The contents of a `serde_yaml::Value`, variant by variant: strings, the items
/// of sequences and the entries of mappings in their order, and what stands
/// behind a tag. The result is named.
#[verifier::external_body]
fn yaml_of(v: &serde_yaml::Value) -> (r: Yaml)
    ensures
        r@ == yaml_contents(*v),
{
    match v {
        serde_yaml::Value::String(s) => Yaml::Text(s.clone()),
        serde_yaml::Value::Sequence(s) => Yaml::Sequence(s.iter().map(yaml_of).collect()),
        serde_yaml::Value::Mapping(m) => {
            Yaml::Mapping(m.iter().map(|(k, x)| (yaml_of(k), yaml_of(x))).collect())
        },
        serde_yaml::Value::Tagged(t) => Yaml::Tagged(Box::new(yaml_of(&t.value))),
        _ => Yaml::Other,
    }
}

/// The document that a YAML text denotes.
pub open spec fn yaml_document(text: Seq<char>) -> Option<Doc> {
    match yaml_value(text) {
        Some(v) => Some(yaml_contents(v)),
        None => None,
    }
}

/// Reads a configuration.
pub fn parse_config(text: &str) -> (r: Option<Yaml>)
    ensures
        match r {
            Some(v) => yaml_document(text@) == Some(v@),
            None => yaml_document(text@) is None,
        },
{
    match yaml_from_str(text) {
        Some(v) => Some(yaml_of(&v)),
        None => None,
    }
}

/// The text of a node, whatever tags it carries.
pub open spec fn text_of(v: Doc) -> Option<Seq<char>>
    decreases v,
{
    match v {
        Doc::Text(s) => Some(s),
        Doc::Tagged(inner) => text_of(*inner),
        _ => None,
    }
}

/// The text of a node.
fn as_text(v: &Yaml) -> (r: Option<&str>)
    ensures
        opt_str(r) == text_of(v@),
    decreases v,
{
    match v {
        Yaml::Text(s) => Some(s.as_str()),
        Yaml::Tagged(inner) => as_text(inner),
        _ => None,
    }
}

/// Whether a node is the text `t`.
fn is_text(v: &Yaml, t: &str) -> (r: bool)
    ensures
        r == (text_of(v@) == Some(t@)),
{
    match as_text(v) {
        Some(s) => same(s, t),
        None => false,
    }
}

/// A node without its tags.
pub open spec fn untagged(v: Doc) -> Doc
    decreases v,
{
    match v {
        Doc::Tagged(inner) => untagged(*inner),
        _ => v,
    }
}

/// The value of the first entry from `i` on whose key is the bare text `key`.
pub open spec fn entry_value(m: Seq<(Doc, Doc)>, key: Seq<char>, i: int) -> Option<Doc>
    decreases m.len() - i,
{
    if i < 0 || i >= m.len() {
        None
    } else if m[i].0 matches Doc::Text(k) && k == key {
        Some(m[i].1)
    } else {
        entry_value(m, key, i + 1)
    }
}

/// The member `key` of a node.
pub open spec fn member(v: Doc, key: Seq<char>) -> Option<Doc> {
    match untagged(v) {
        Doc::Mapping(m) => entry_value(m, key, 0),
        _ => None,
    }
}

/// The member that a member has.
pub open spec fn member_of(v: Option<Doc>, key: Seq<char>) -> Option<Doc> {
    match v {
        Some(y) => member(y, key),
        None => None,
    }
}

/// The text that a member has.
pub open spec fn member_text(v: Option<Doc>) -> Option<Seq<char>> {
    match v {
        Some(y) => text_of(y),
        None => None,
    }
}

/// What a reference to a node refers to.
pub open spec fn node(v: Option<&Yaml>) -> Option<Doc> {
    match v {
        Some(y) => Some(y@),
        None => None,
    }
}

/// The member `key` of a node.
fn get<'a>(v: &'a Yaml, key: &str) -> (r: Option<&'a Yaml>)
    ensures
        node(r) == member(v@, key@),
    decreases v,
{
    match v {
        Yaml::Tagged(inner) => get(inner, key),
        Yaml::Mapping(m) => {
            proof {
                lemma_mapping(*m);
            }
            let mut i: usize = 0;
            while i < m.len()
                invariant
                    i <= m.len(),
                    entry_value(entries(m@), key@, 0) == entry_value(entries(m@), key@, i as int),
                    v matches Yaml::Mapping(w) && w == m,
                    v@ == Doc::Mapping(entries(m@)),
                decreases m.len() - i,
            {
                if let Yaml::Text(k) = &m[i].0 {
                    if same(k.as_str(), key) {
                        return Some(&m[i].1);
                    }
                }
                i += 1;
            }
            None
        },
        _ => None,
    }
}

/// The member `key` of a node that may be missing.
fn get_in<'a>(v: Option<&'a Yaml>, key: &str) -> (r: Option<&'a Yaml>)
    ensures
        node(r) == member_of(node(v), key@),
{
    match v {
        Some(y) => get(y, key),
        None => None,
    }
}

/// The text of a node that may be missing.
fn text_in(v: Option<&Yaml>) -> (r: Option<&str>)
    ensures
        opt_str(r) == member_text(node(v)),
{
    match v {
        Some(y) => as_text(y),
        None => None,
    }
}

/// The title that a configuration gives its game. `root.name` is a key into
/// `localizations.default`; where that has no entry for it the title is
/// `root.sort_string`, and without one the key itself.
pub open spec fn title_in(v: Doc) -> Option<Seq<char>> {
    match member(v, "root"@) {
        None => None,
        Some(root) => {
            let key = member_text(member(root, "name"@));
            let names = member_of(member(v, "localizations"@), "default"@);
            let localized = match key {
                Some(k) => member_text(member_of(names, k)),
                None => None,
            };
            match (localized, member_text(member(root, "sort_string"@))) {
                (Some(t), _) => Some(trimmed(t)),
                (None, Some(t)) => Some(trimmed(t)),
                (None, None) => key,
            }
        },
    }
}

/// What a search in a configuration gives: nothing where the text is no YAML
/// document.
pub open spec fn title_of(config: Seq<char>) -> Option<Seq<char>> {
    match yaml_document(config) {
        Some(v) => title_in(v),
        None => None,
    }
}

/// The title that a parsed configuration gives its game.
pub fn title(v: &Yaml) -> (r: Option<String>)
    ensures
        opt_text(r) == title_in(v@),
{
    let root = match get(v, "root") {
        Some(x) => x,
        None => {
            return None;
        },
    };
    let key = text_in(get(root, "name"));
    if let Some(k) = key {
        let names = get_in(get(v, "localizations"), "default");
        if let Some(t) = text_in(get_in(names, k)) {
            return Some(trim(t));
        }
    }
    match text_in(get(root, "sort_string")) {
        Some(t) => Some(trim(t)),
        None => owned(key),
    }
}

/// The human-readable name of a game, out of its product configuration.
pub fn game_name(config: &str) -> (r: Option<String>)
    ensures
        opt_text(r) == title_of(config@),
{
    match parse_config(config) {
        Some(v) => title(&v),
        None => None,
    }
}

/// The executable that one entry of a mapping names.
pub open spec fn executable_entry(e: (Doc, Doc)) -> Seq<Seq<char>> {
    match text_of(e.1) {
        Some(s) => if text_of(e.0) == Some("relative"@) && ends(lowercase(s), ".exe"@) {
            seq![s]
        } else {
            seq![]
        },
        None => seq![],
    }
}

/// The relative paths of the executables that `v` names, in document order.
pub open spec fn executables_in(v: Doc) -> Seq<Seq<char>>
    decreases v, 0nat,
{
    match v {
        Doc::Mapping(m) => executables_in_entries(m, m.len()),
        Doc::Sequence(s) => executables_in_items(s, s.len()),
        _ => seq![],
    }
}

/// The executables that the first `n` entries of a mapping name.
pub open spec fn executables_in_entries(m: Seq<(Doc, Doc)>, n: nat) -> Seq<Seq<char>>
    decreases m, n,
{
    if n == 0 || n > m.len() {
        seq![]
    } else {
        executables_in_entries(m, (n - 1) as nat) + executable_entry(m[n - 1])
            + executables_in(m[n - 1].1)
    }
}

/// The executables that the first `n` items of a sequence name.
pub open spec fn executables_in_items(s: Seq<Doc>, n: nat) -> Seq<Seq<char>>
    decreases s, n,
{
    if n == 0 || n > s.len() {
        seq![]
    } else {
        executables_in_items(s, (n - 1) as nat) + executables_in(s[n - 1])
    }
}

/// A list and, behind it, each of `more` that it does not hold yet, once.
pub open spec fn with_new(l: Seq<Seq<char>>, more: Seq<Seq<char>>) -> Seq<Seq<char>>
    decreases more.len(),
{
    if more.len() == 0 {
        l
    } else {
        let before = with_new(l, more.drop_last());
        if before.contains(more.last()) {
            before
        } else {
            before.push(more.last())
        }
    }
}

proof fn lemma_with_new_append(l: Seq<Seq<char>>, a: Seq<Seq<char>>, b: Seq<Seq<char>>)
    ensures
        with_new(with_new(l, a), b) == with_new(l, a + b),
    decreases b.len(),
{
    if b.len() == 0 {
        assert(a + b == a);
    } else {
        assert((a + b).drop_last() == a + b.drop_last());
        lemma_with_new_append(l, a, b.drop_last());
    }
}

/// Whether `l` lists `s`.
fn lists(l: &Vec<String>, s: &str) -> (r: bool)
    ensures
        r == texts(l@).contains(s@),
{
    let mut i: usize = 0;
    while i < l.len()
        invariant
            i <= l.len(),
            forall|j: int| 0 <= j < i ==> #[trigger] texts(l@)[j] != s@,
        decreases l.len() - i,
    {
        if same(l[i].as_str(), s) {
            assert(texts(l@)[i as int] == s@);
            return true;
        }
        i += 1;
    }
    false
}

/// Adds to `out` every executable that `v` names and `out` does not list yet.
pub fn collect_executables(v: &Yaml, out: &mut Vec<String>)
    ensures
        texts(final(out)@) == with_new(texts(old(out)@), executables_in(v@)),
    decreases v,
{
    match v {
        Yaml::Mapping(m) => {
            proof {
                lemma_mapping(*m);
            }
            let mut i: usize = 0;
            while i < m.len()
                invariant
                    i <= m.len(),
                    v matches Yaml::Mapping(w) && w == m,
                    v@ == Doc::Mapping(entries(m@)),
                    texts(out@) == with_new(
                        texts(old(out)@),
                        executables_in_entries(entries(m@), i as nat),
                    ),
                decreases m.len() - i,
            {
                broadcast use lemma_texts_push;

                let ghost start = texts(old(out)@);
                let ghost done = executables_in_entries(entries(m@), i as nat);
                let ghost own = executable_entry(entries(m@)[i as int]);
                proof {
                    lemma_with_new_append(start, done, own);
                    lemma_with_new_append(start, done + own, executables_in(entries(m@)[i as int].1));
                    reveal_with_fuel(with_new, 2);
                    if own.len() > 0 {
                        assert(own.drop_last() == Seq::<Seq<char>>::empty());
                    }
                }
                if is_text(&m[i].0, "relative") {
                    if let Some(s) = as_text(&m[i].1) {
                        if ends_with(to_lowercase(s).as_str(), ".exe") && !lists(out, s) {
                            out.push(s.to_owned());
                        }
                    }
                }
                assert(texts(out@) == with_new(start, done + own));
                collect_executables(&m[i].1, out);
                i += 1;
            }
        },
        Yaml::Sequence(s) => {
            proof {
                lemma_sequence(*s);
            }
            let mut i: usize = 0;
            while i < s.len()
                invariant
                    i <= s.len(),
                    v matches Yaml::Sequence(w) && w == s,
                    v@ == Doc::Sequence(items(s@)),
                    texts(out@) == with_new(texts(old(out)@), executables_in_items(items(s@), i as nat)),
                decreases s.len() - i,
            {
                proof {
                    lemma_with_new_append(
                        texts(old(out)@),
                        executables_in_items(items(s@), i as nat),
                        executables_in(items(s@)[i as int]),
                    );
                }
                collect_executables(&s[i], out);
                i += 1;
            }
        },
        _ => {},
    }
}

/// An executable of the single-player game: its name ends in `SP.exe`, in letters of
/// either case.
pub open spec fn is_single_player(exe: Seq<char>) -> bool {
    ends(uppercase(exe), "SP.EXE"@)
}

/// The first single-player executable from `i` on.
pub open spec fn single_player_from(exes: Seq<Seq<char>>, i: int) -> Option<Seq<char>>
    decreases exes.len() - i,
{
    if i < 0 || i >= exes.len() {
        None
    } else if is_single_player(exes[i]) {
        Some(exes[i])
    } else {
        single_player_from(exes, i + 1)
    }
}

/// The executable to start: the first single-player one, else the first.
pub open spec fn preferred(exes: Seq<Seq<char>>) -> Option<Seq<char>> {
    match single_player_from(exes, 0) {
        Some(e) => Some(e),
        None => if exes.len() == 0 {
            None
        } else {
            Some(exes[0])
        },
    }
}

/// The executable to start, of those that a game has.
pub fn pick_executable(exes: &Vec<String>) -> (r: Option<String>)
    ensures
        opt_text(r) == preferred(texts(exes@)),
{
    let mut i: usize = 0;
    while i < exes.len()
        invariant
            i <= exes.len(),
            single_player_from(texts(exes@), 0) == single_player_from(texts(exes@), i as int),
        decreases exes.len() - i,
    {
        if ends_with(to_uppercase(exes[i].as_str()).as_str(), "SP.EXE") {
            assert(texts(exes@)[i as int] == exes@[i as int]@);
            return Some(exes[i].clone());
        }
        i += 1;
    }
    if exes.len() == 0 {
        None
    } else {
        Some(exes[0].clone())
    }
}

/// The executable that a configuration starts its game with.
pub open spec fn executable_in(v: Doc) -> Option<Seq<char>> {
    preferred(with_new(seq![], executables_in(v)))
}

/// What `executable_in` gives for a configuration text.
pub open spec fn executable_of(config: Seq<char>) -> Option<Seq<char>> {
    match yaml_document(config) {
        Some(v) => executable_in(v),
        None => None,
    }
}

/// The executable that a parsed configuration starts its game with.
pub fn executable(v: &Yaml) -> (r: Option<String>)
    ensures
        opt_text(r) == executable_in(v@),
{
    let mut exes: Vec<String> = Vec::new();
    assert(texts(exes@) == Seq::<Seq<char>>::empty());
    collect_executables(v, &mut exes);
    pick_executable(&exes)
}

/// The executable to start a game with, out of its product configuration:
/// rather a single-player executable than a multiplayer one, else the first.
pub fn first_executable(config: &str) -> (r: Option<String>)
    ensures
        opt_text(r) == executable_of(config@),
{
    match parse_config(config) {
        Some(v) => executable(&v),
        None => None,
    }
}

/// Collecting lists each text once and exactly the texts that are named.
pub proof fn law_collected_once(l: Seq<Seq<char>>, more: Seq<Seq<char>>)
    requires
        l.no_duplicates(),
    ensures
        with_new(l, more).no_duplicates(),
        forall|e: Seq<char>|
            #[trigger] with_new(l, more).contains(e) <==> l.contains(e) || more.contains(e),
    decreases more.len(),
{
    if more.len() > 0 {
        law_collected_once(l, more.drop_last());
        let before = with_new(l, more.drop_last());
        let x = more.last();
        assert forall|e: Seq<char>| #[trigger]
            with_new(l, more).contains(e) <==> l.contains(e) || more.contains(e) by {
            if more.contains(e) && e != x {
                let i = more.index_of(e);
                assert(more.drop_last()[i] == e);
            }
            if more.drop_last().contains(e) {
                let i = more.drop_last().index_of(e);
                assert(more[i] == e);
            }
            if !before.contains(x) {
                if before.contains(e) {
                    let i = before.index_of(e);
                    assert(before.push(x)[i] == e);
                }
                assert(before.push(x).last() == x);
                if before.push(x).contains(e) && e != x {
                    let i = before.push(x).index_of(e);
                    assert(before[i] == e);
                }
            }
            assert(more.last() == x && more.contains(x));
        }
    }
}

proof fn lemma_single_player_from(exes: Seq<Seq<char>>, i: int)
    requires
        0 <= i <= exes.len(),
    ensures
        single_player_from(exes, i) matches Some(e) ==> exes.contains(e) && is_single_player(e),
        single_player_from(exes, i) is None ==> forall|j: int|
            i <= j < exes.len() ==> !is_single_player(#[trigger] exes[j]),
    decreases exes.len() - i,
{
    if i < exes.len() {
        lemma_single_player_from(exes, i + 1);
    }
}

/// A configuration that names an executable has one to start, which is one of
/// those that it names, and a single-player one where it names such.
pub proof fn law_executable_is_named(v: Doc)
    ensures
        executable_in(v) is Some <==> executables_in(v).len() > 0,
        executable_in(v) matches Some(e) ==> executables_in(v).contains(e),
        forall|i: int|
            0 <= i < executables_in(v).len() && ends(
                uppercase(#[trigger] executables_in(v)[i]),
                "SP.EXE"@,
            ) ==> (executable_in(v) matches Some(e) && ends(uppercase(e), "SP.EXE"@)),
{
    let all = executables_in(v);
    let exes = with_new(seq![], all);
    law_collected_once(seq![], all);
    lemma_single_player_from(exes, 0);
    if all.len() > 0 {
        assert(all.contains(all[0]));
        assert(exes.contains(all[0]));
    }
    if exes.len() > 0 {
        assert(exes.contains(exes[0]));
    }
    assert forall|i: int|
        0 <= i < all.len() && ends(uppercase(#[trigger] all[i]), "SP.EXE"@) implies (executable_in(
        v,
    ) matches Some(e) && ends(uppercase(e), "SP.EXE"@)) by {
        assert(all.contains(all[i]));
        assert(exes.contains(all[i]));
    }
}

/// The first of two finds.
pub open spec fn or_else(a: Option<Seq<char>>, b: Option<Seq<char>>) -> Option<Seq<char>> {
    match a {
        Some(s) => Some(s),
        None => b,
    }
}

/// The text of a node, and no text where it has none.
pub open spec fn text_or_empty(v: Doc) -> Seq<char> {
    match text_of(v) {
        Some(s) => s,
        None => seq![],
    }
}

/// An entry that marks its mapping as the settings application.
pub open spec fn marks_settings(e: (Doc, Doc)) -> bool {
    let k = lowercase(text_or_empty(e.0));
    let s = lowercase(text_or_empty(e.1));
    (occurs(k, "internal_name"@) || occurs(k, "description"@) || k == "name"@) && (occurs(
        s,
        "setting"@,
    ) || occurs(s, "config"@))
}

/// The value of the first entry from `i` on whose key, tags aside, is the text
/// `key`.
pub open spec fn labelled(m: Seq<(Doc, Doc)>, key: Seq<char>, i: int) -> Option<Doc>
    decreases m.len() - i,
{
    if i < 0 || i >= m.len() {
        None
    } else if text_of(m[i].0) == Some(key) {
        Some(m[i].1)
    } else {
        labelled(m, key, i + 1)
    }
}

/// The executable of a mapping that marks itself as the settings application.
pub open spec fn own_settings(m: Seq<(Doc, Doc)>) -> Option<Seq<char>> {
    match member_text(labelled(m, "relative"@, 0)) {
        Some(rel) => if ends(lowercase(rel), ".exe"@) && exists|i: int|
            0 <= i < m.len() && #[trigger] marks_settings(m[i]) {
            Some(rel)
        } else {
            None
        },
        None => None,
    }
}

/// The settings application that `v` names: that of the outermost mapping that
/// marks itself as such, the first in document order.
pub open spec fn settings_in(v: Doc) -> Option<Seq<char>>
    decreases v, 0nat,
{
    match v {
        Doc::Mapping(m) => or_else(own_settings(m), settings_in_entries(m, m.len())),
        Doc::Sequence(s) => settings_in_items(s, s.len()),
        _ => None,
    }
}

/// The settings application that the values of the first `n` entries name.
pub open spec fn settings_in_entries(m: Seq<(Doc, Doc)>, n: nat) -> Option<Seq<char>>
    decreases m, n,
{
    if n == 0 || n > m.len() {
        None
    } else {
        or_else(settings_in_entries(m, (n - 1) as nat), settings_in(m[n - 1].1))
    }
}

/// The settings application that the first `n` items name.
pub open spec fn settings_in_items(s: Seq<Doc>, n: nat) -> Option<Seq<char>>
    decreases s, n,
{
    if n == 0 || n > s.len() {
        None
    } else {
        or_else(settings_in_items(s, (n - 1) as nat), settings_in(s[n - 1]))
    }
}

/// The text of a node, and no text where it has none.
fn text_or_none(v: &Yaml) -> (r: &str)
    ensures
        r@ == text_or_empty(v@),
{
    match as_text(v) {
        Some(s) => s,
        None => {
            proof {
                reveal_strlit("");
            }
            ""
        },
    }
}

/// Whether an entry marks its mapping as the settings application.
fn is_settings_mark(k: &Yaml, val: &Yaml) -> (r: bool)
    ensures
        r == marks_settings((k@, val@)),
{
    let kn = to_lowercase(text_or_none(k));
    let vs = to_lowercase(text_or_none(val));
    let k = kn.as_str();
    let s = vs.as_str();
    (contains(k, "internal_name") || contains(k, "description") || same(k, "name")) && (contains(
        s,
        "setting",
    ) || contains(s, "config"))
}

/// The executable of a mapping that marks itself as the settings application.
fn settings_of_mapping(m: &Vec<(Yaml, Yaml)>) -> (r: Option<String>)
    ensures
        opt_text(r) == own_settings(entries(m@)),
{
    let mut i: usize = 0;
    while i < m.len() && !is_text(&m[i].0, "relative")
        invariant
            i <= m.len(),
            labelled(entries(m@), "relative"@, 0) == labelled(entries(m@), "relative"@, i as int),
        decreases m.len() - i,
    {
        i += 1;
    }
    if i == m.len() {
        return None;
    }
    if let Some(rel) = as_text(&m[i].1) {
        if ends_with(to_lowercase(rel).as_str(), ".exe") {
            let mut j: usize = 0;
            while j < m.len()
                invariant
                    j <= m.len(),
                    forall|k: int| 0 <= k < j ==> !#[trigger] marks_settings(entries(m@)[k]),
                    member_text(labelled(entries(m@), "relative"@, 0)) == Some(rel@),
                    ends(lowercase(rel@), ".exe"@),
                decreases m.len() - j,
            {
                if is_settings_mark(&m[j].0, &m[j].1) {
                    assert(marks_settings(entries(m@)[j as int]));
                    return Some(rel.to_owned());
                }
                j += 1;
            }
        }
    }
    None
}

/// Looks in `v` for the settings application, unless one is found already.
pub fn walk_for_settings(v: &Yaml, found: &mut Option<String>)
    ensures
        opt_text(*final(found)) == or_else(opt_text(*old(found)), settings_in(v@)),
    decreases v,
{
    if found.is_some() {
        return;
    }
    match v {
        Yaml::Mapping(m) => {
            proof {
                lemma_mapping(*m);
            }
            let own = settings_of_mapping(m);
            if own.is_some() {
                *found = own;
                return;
            }
            let mut i: usize = 0;
            while i < m.len()
                invariant
                    i <= m.len(),
                    v matches Yaml::Mapping(w) && w == m,
                    v@ == Doc::Mapping(entries(m@)),
                    opt_text(*found) == settings_in_entries(entries(m@), i as nat),
                decreases m.len() - i,
            {
                walk_for_settings(&m[i].1, found);
                i += 1;
            }
        },
        Yaml::Sequence(s) => {
            proof {
                lemma_sequence(*s);
            }
            let mut i: usize = 0;
            while i < s.len()
                invariant
                    i <= s.len(),
                    v matches Yaml::Sequence(w) && w == s,
                    v@ == Doc::Sequence(items(s@)),
                    opt_text(*found) == settings_in_items(items(s@), i as nat),
                decreases s.len() - i,
            {
                walk_for_settings(&s[i], found);
                i += 1;
            }
        },
        _ => {},
    }
}

/// What `settings_in` gives for a configuration text.
pub open spec fn settings_of(config: Seq<char>) -> Option<Seq<char>> {
    match yaml_document(config) {
        Some(v) => settings_in(v),
        None => None,
    }
}

/// The settings application that a product configuration names.
pub fn find_settings_exe(config: &str) -> (r: Option<String>)
    ensures
        opt_text(r) == settings_of(config@),
{
    match parse_config(config) {
        Some(v) => {
            let mut found: Option<String> = None;
            walk_for_settings(&v, &mut found);
            found
        },
        None => None,
    }
}

/// The registry location that one entry of a mapping names.
pub open spec fn register_entry(e: (Doc, Doc)) -> Option<Seq<char>> {
    match text_of(e.1) {
        Some(s) => if text_of(e.0) == Some("register"@) && occurs(uppercase(s), "HKEY"@) {
            Some(s)
        } else {
            None
        },
        None => None,
    }
}

/// The registry location that the first `n` entries of a mapping name.
pub open spec fn own_register(m: Seq<(Doc, Doc)>, n: nat) -> Option<Seq<char>>
    decreases n,
{
    if n == 0 || n > m.len() {
        None
    } else {
        or_else(own_register(m, (n - 1) as nat), register_entry(m[n - 1]))
    }
}

/// The registry location that `v` names: that of a mapping's own entries before
/// that of its values, else the first in document order.
pub open spec fn register_in(v: Doc) -> Option<Seq<char>>
    decreases v, 0nat,
{
    match v {
        Doc::Mapping(m) => or_else(
            own_register(m, m.len()),
            register_in_entries(m, m.len()),
        ),
        Doc::Sequence(s) => register_in_items(s, s.len()),
        _ => None,
    }
}

/// The registry location that the values of the first `n` entries name.
pub open spec fn register_in_entries(m: Seq<(Doc, Doc)>, n: nat) -> Option<Seq<char>>
    decreases m, n,
{
    if n == 0 || n > m.len() {
        None
    } else {
        or_else(register_in_entries(m, (n - 1) as nat), register_in(m[n - 1].1))
    }
}

/// The registry location that the first `n` items name.
pub open spec fn register_in_items(s: Seq<Doc>, n: nat) -> Option<Seq<char>>
    decreases s, n,
{
    if n == 0 || n > s.len() {
        None
    } else {
        or_else(register_in_items(s, (n - 1) as nat), register_in(s[n - 1]))
    }
}

proof fn lemma_own_register(m: Seq<(Doc, Doc)>, n: nat)
    requires
        n <= m.len(),
        own_register(m, n) is Some,
    ensures
        own_register(m, m.len()) == own_register(m, n),
    decreases m.len() - n,
{
    if n < m.len() {
        lemma_own_register(m, n + 1);
    }
}

/// The registry location that an entry of a mapping names as that of the game's
/// working directory: the entry's key is `working_directory`, and its value is a
/// mapping which names the location.
pub open spec fn working_dir_entry(e: (Doc, Doc)) -> Option<Seq<char>> {
    if text_of(e.0) == Some("working_directory"@) {
        match e.1 {
            Doc::Mapping(m) => own_register(m, m.len()),
            _ => None,
        }
    } else {
        None
    }
}

/// The first registry location, in document order, that `v` names as that of a
/// working directory, at any depth.
pub open spec fn working_dir_register_in(v: Doc) -> Option<Seq<char>>
    decreases v, 0nat,
{
    match v {
        Doc::Mapping(m) => working_dir_register_in_entries(m, m.len()),
        Doc::Sequence(s) => working_dir_register_in_items(s, s.len()),
        _ => None,
    }
}

/// The first registry location of a working directory in the first `n` entries.
pub open spec fn working_dir_register_in_entries(m: Seq<(Doc, Doc)>, n: nat) -> Option<Seq<char>>
    decreases m, n,
{
    if n == 0 || n > m.len() {
        None
    } else {
        or_else(
            working_dir_register_in_entries(m, (n - 1) as nat),
            or_else(working_dir_entry(m[n - 1]), working_dir_register_in(m[n - 1].1)),
        )
    }
}

/// The first registry location of a working directory in the first `n` items.
pub open spec fn working_dir_register_in_items(s: Seq<Doc>, n: nat) -> Option<Seq<char>>
    decreases s, n,
{
    if n == 0 || n > s.len() {
        None
    } else {
        or_else(working_dir_register_in_items(s, (n - 1) as nat), working_dir_register_in(s[n - 1]))
    }
}

/// The registry location that one entry of a mapping names.
fn entry_register(k: &Yaml, v: &Yaml) -> (r: Option<String>)
    ensures
        opt_text(r) == register_entry((k@, v@)),
{
    if is_text(k, "register") {
        if let Some(s) = as_text(v) {
            if contains(to_uppercase(s).as_str(), "HKEY") {
                return Some(s.to_owned());
            }
        }
    }
    None
}

/// The registry location that the entries of a mapping name.
fn mapping_register(m: &Vec<(Yaml, Yaml)>) -> (r: Option<String>)
    ensures
        opt_text(r) == own_register(entries(m@), m@.len()),
{
    let mut i: usize = 0;
    while i < m.len()
        invariant
            i <= m.len(),
            own_register(entries(m@), i as nat) is None,
        decreases m.len() - i,
    {
        let found = entry_register(&m[i].0, &m[i].1);
        if found.is_some() {
            proof {
                lemma_own_register(entries(m@), (i + 1) as nat);
            }
            return found;
        }
        i += 1;
    }
    None
}

/// Looks in `v` for the registry location of a working directory, unless a location
/// is found already.
fn walk_for_working_dir(v: &Yaml, found: &mut Option<String>)
    ensures
        opt_text(*final(found)) == or_else(opt_text(*old(found)), working_dir_register_in(v@)),
    decreases v,
{
    if found.is_some() {
        return;
    }
    match v {
        Yaml::Mapping(m) => {
            proof {
                lemma_mapping(*m);
            }
            let mut i: usize = 0;
            while i < m.len()
                invariant
                    i <= m.len(),
                    v matches Yaml::Mapping(w) && w == m,
                    v@ == Doc::Mapping(entries(m@)),
                    opt_text(*found) == working_dir_register_in_entries(entries(m@), i as nat),
                decreases m.len() - i,
            {
                if found.is_none() && is_text(&m[i].0, "working_directory") {
                    if let Yaml::Mapping(w) = &m[i].1 {
                        proof {
                            lemma_mapping(*w);
                        }
                        *found = mapping_register(w);
                    }
                }
                walk_for_working_dir(&m[i].1, found);
                i += 1;
            }
        },
        Yaml::Sequence(s) => {
            proof {
                lemma_sequence(*s);
            }
            let mut i: usize = 0;
            while i < s.len()
                invariant
                    i <= s.len(),
                    v matches Yaml::Sequence(w) && w == s,
                    v@ == Doc::Sequence(items(s@)),
                    opt_text(*found) == working_dir_register_in_items(items(s@), i as nat),
                decreases s.len() - i,
            {
                walk_for_working_dir(&s[i], found);
                i += 1;
            }
        },
        _ => {},
    }
}

/// Looks in `v` for any registry location, unless one is found already.
fn walk_for_any_register(v: &Yaml, found: &mut Option<String>)
    ensures
        opt_text(*final(found)) == or_else(opt_text(*old(found)), register_in(v@)),
    decreases v,
{
    if found.is_some() {
        return;
    }
    match v {
        Yaml::Mapping(m) => {
            proof {
                lemma_mapping(*m);
            }
            *found = mapping_register(m);
            let ghost own = opt_text(*found);
            let mut i: usize = 0;
            while i < m.len()
                invariant
                    i <= m.len(),
                    v matches Yaml::Mapping(w) && w == m,
                    v@ == Doc::Mapping(entries(m@)),
                    opt_text(*found) == or_else(own, register_in_entries(entries(m@), i as nat)),
                decreases m.len() - i,
            {
                walk_for_any_register(&m[i].1, found);
                i += 1;
            }
        },
        Yaml::Sequence(s) => {
            proof {
                lemma_sequence(*s);
            }
            let mut i: usize = 0;
            while i < s.len()
                invariant
                    i <= s.len(),
                    v matches Yaml::Sequence(w) && w == s,
                    v@ == Doc::Sequence(items(s@)),
                    opt_text(*found) == register_in_items(items(s@), i as nat),
                decreases s.len() - i,
            {
                walk_for_any_register(&s[i], found);
                i += 1;
            }
        },
        _ => {},
    }
}

/// Where a game looks for its own install path: the registry location of its working
/// directory, and where the document names none the first location that it names.
pub open spec fn install_register_in(v: Doc) -> Option<Seq<char>> {
    or_else(working_dir_register_in(v), register_in(v))
}

/// Looks in `v` for the registry location of the install path, unless a location is
/// found already.
pub fn walk_for_register(v: &Yaml, found: &mut Option<String>)
    ensures
        opt_text(*final(found)) == or_else(opt_text(*old(found)), install_register_in(v@)),
{
    walk_for_working_dir(v, found);
    walk_for_any_register(v, found);
}

/// What `install_register_in` gives for a configuration text.
pub open spec fn register_of(config: Seq<char>) -> Option<Seq<char>> {
    match yaml_document(config) {
        Some(v) => install_register_in(v),
        None => None,
    }
}

/// The registry location under which a game looks for its own install path, out
/// of its product configuration.
pub fn install_register(config: &str) -> (r: Option<String>)
    ensures
        opt_text(r) == register_of(config@),
{
    match parse_config(config) {
        Some(v) => {
            let mut found: Option<String> = None;
            walk_for_register(&v, &mut found);
            found
        },
        None => None,
    }
}

/// Another `register` in the document does not stand in for that of the working
/// directory, wherever the two stand.
pub proof fn law_working_dir_register_wins(v: Doc)
    requires
        working_dir_register_in(v) is Some,
    ensures
        install_register_in(v) == working_dir_register_in(v),
{
}

// ---------------------------------------------------------------------------
// What a configuration promises
// ---------------------------------------------------------------------------

proof fn lemma_single_player_later(exes: Seq<Seq<char>>, i: int, k: int)
    requires
        0 <= i <= k <= exes.len(),
        forall|j: int| i <= j < k ==> !ends(uppercase(#[trigger] exes[j]), "SP.EXE"@),
    ensures
        single_player_from(exes, i) == single_player_from(exes, k),
    decreases k - i,
{
    if i < k {
        lemma_single_player_later(exes, i + 1, k);
    }
}

/// Of some executables the first whose upper case form ends in `SP.EXE` is picked, in
/// whatever directory it is; where there is none the first of all is.
pub proof fn law_first_single_player_executable_is_picked(exes: Seq<Seq<char>>, k: int)
    requires
        0 <= k <= exes.len(),
        forall|j: int| 0 <= j < k ==> !ends(uppercase(#[trigger] exes[j]), "SP.EXE"@),
        k < exes.len() ==> ends(uppercase(exes[k]), "SP.EXE"@),
    ensures
        k < exes.len() ==> preferred(exes) == Some(exes[k]),
        k == exes.len() && k > 0 ==> preferred(exes) == Some(exes[0]),
        exes.len() == 0 ==> preferred(exes) is None,
{
    lemma_single_player_later(exes, 0, k);
}

/// A name that ends in `SP.exe`, in letters of either case, makes an executable a
/// single-player one wherever it is.
pub proof fn law_single_player_names(path: Seq<char>, s: Seq<char>)
    requires
        is_ascii_chars(path),
        is_ascii_chars(s),
        upper_ascii(s) == "SP.EXE"@,
    ensures
        ends(uppercase(path + s), "SP.EXE"@),
        preferred(seq![path + "MP.exe"@, path + s]) == Some(path + s),
{
    reveal_strlit("SP.EXE");
    reveal_strlit("MP.exe");
    let p = path + s;
    assert(is_ascii_chars(p));
    let u = uppercase(p);
    assert(u =~= upper_ascii(path) + upper_ascii(s));
    assert(s.len() == 6);
    assert(u.subrange(u.len() - 6, u.len() as int) =~= "SP.EXE"@);
    let q = path + "MP.exe"@;
    assert(is_ascii_chars(q));
    let w = uppercase(q);
    assert(w[w.len() - 6] == 'M');
    assert(!ends(w, "SP.EXE"@)) by {
        assert(w.subrange(w.len() - 6, w.len() as int)[0] == 'M');
        assert("SP.EXE"@[0] == 'S');
    }
    let l = seq![q, p];
    assert(l[0] == q && l[1] == p);
    law_first_single_player_executable_is_picked(l, 1);
}

proof fn lemma_single_player_push(l: Seq<Seq<char>>, e: Seq<char>, i: int)
    requires
        0 <= i <= l.len(),
    ensures
        single_player_from(l.push(e), i) == (match single_player_from(l, i) {
            Some(a) => Some(a),
            None => if is_single_player(e) {
                Some(e)
            } else {
                None
            },
        }),
    decreases l.len() - i,
{
    if i < l.len() {
        assert(l.push(e)[i] == l[i]);
        lemma_single_player_push(l, e, i + 1);
    } else {
        assert(l.push(e)[i] == e);
        assert(single_player_from(l.push(e), i + 1) is None);
    }
}

proof fn lemma_first_of_collected(l: Seq<Seq<char>>, more: Seq<Seq<char>>)
    ensures
        single_player_from(with_new(l, more), 0) == single_player_from(l + more, 0),
        l.len() + more.len() > 0 ==> with_new(l, more).len() > 0 && with_new(l, more)[0] == (l
            + more)[0],
        l.len() <= with_new(l, more).len(),
    decreases more.len(),
{
    if more.len() == 0 {
        assert(l + more =~= l);
    } else {
        let init = more.drop_last();
        let e = more.last();
        lemma_first_of_collected(l, init);
        let before = with_new(l, init);
        assert(l + more =~= (l + init).push(e));
        lemma_single_player_push(l + init, e, 0);
        lemma_single_player_push(before, e, 0);
        if before.contains(e) {
            lemma_single_player_from(before, 0);
            if is_single_player(e) && single_player_from(before, 0) is None {
                let i = before.index_of(e);
                assert(!is_single_player(before[i]));
            }
            assert(before.len() > 0);
            if l.len() + init.len() == 0 {
                assert(before.len() == 0) by {
                    assert(with_new(l, init) == l);
                }
            }
        } else if l.len() + init.len() == 0 {
            assert(with_new(l, init) == l);
            assert((l + more)[0] == e);
        } else {
            assert((l + more)[0] == (l + init)[0]);
        }
    }
}

/// A configuration starts the first single-player executable that it names, in the
/// order of the document, and else the first of all.
pub proof fn law_configuration_starts_its_first_executable(v: Doc, k: int)
    requires
        0 <= k <= executables_in(v).len(),
        forall|j: int|
            0 <= j < k ==> !ends(uppercase(#[trigger] executables_in(v)[j]), "SP.EXE"@),
        k < executables_in(v).len() ==> ends(uppercase(executables_in(v)[k]), "SP.EXE"@),
    ensures
        k < executables_in(v).len() ==> executable_in(v) == Some(executables_in(v)[k]),
        k == executables_in(v).len() && k > 0 ==> executable_in(v) == Some(executables_in(v)[0]),
        executables_in(v).len() == 0 ==> executable_in(v) is None,
{
    let all = executables_in(v);
    lemma_first_of_collected(seq![], all);
    assert(Seq::<Seq<char>>::empty() + all =~= all);
    law_first_single_player_executable_is_picked(all, k);
}

proof fn lemma_executables_in_items(a: Seq<Doc>, b: Seq<Doc>, n: nat)
    requires
        n <= b.len(),
    ensures
        executables_in_items(a + b, (a.len() + n) as nat) == executables_in_items(a, a.len())
            + executables_in_items(b, n),
    decreases n,
{
    if n == 0 {
        lemma_executables_in_first_items(a, b, a.len());
        assert(executables_in_items(a, a.len()) + executables_in_items(b, 0)
            =~= executables_in_items(a, a.len()));
    } else {
        lemma_executables_in_items(a, b, (n - 1) as nat);
        assert((a + b)[a.len() + n - 1] == b[n - 1]);
        assert(executables_in_items(a, a.len()) + (executables_in_items(b, (n - 1) as nat)
            + executables_in(b[n - 1])) =~= executables_in_items(a, a.len())
            + executables_in_items(b, (n - 1) as nat) + executables_in(b[n - 1]));
    }
}

proof fn lemma_executables_in_first_items(a: Seq<Doc>, b: Seq<Doc>, n: nat)
    requires
        n <= a.len(),
    ensures
        executables_in_items(a + b, n) == executables_in_items(a, n),
    decreases n,
{
    if n > 0 {
        lemma_executables_in_first_items(a, b, (n - 1) as nat);
        assert((a + b)[n - 1] == a[n - 1]);
    }
}

proof fn lemma_executables_in_entries(a: Seq<(Doc, Doc)>, b: Seq<(Doc, Doc)>, n: nat)
    requires
        n <= b.len(),
    ensures
        executables_in_entries(a + b, (a.len() + n) as nat) == executables_in_entries(a, a.len())
            + executables_in_entries(b, n),
    decreases n,
{
    if n == 0 {
        lemma_executables_in_first_entries(a, b, a.len());
        assert(executables_in_entries(a, a.len()) + executables_in_entries(b, 0)
            =~= executables_in_entries(a, a.len()));
    } else {
        lemma_executables_in_entries(a, b, (n - 1) as nat);
        assert((a + b)[a.len() + n - 1] == b[n - 1]);
        let x = executables_in_entries(a, a.len());
        let y = executables_in_entries(b, (n - 1) as nat);
        let e = executable_entry(b[n - 1]);
        let z = executables_in(b[n - 1].1);
        assert(x + y + e + z =~= x + (y + e + z));
    }
}

proof fn lemma_executables_in_first_entries(a: Seq<(Doc, Doc)>, b: Seq<(Doc, Doc)>, n: nat)
    requires
        n <= a.len(),
    ensures
        executables_in_entries(a + b, n) == executables_in_entries(a, n),
    decreases n,
{
    if n > 0 {
        lemma_executables_in_first_entries(a, b, (n - 1) as nat);
        assert((a + b)[n - 1] == a[n - 1]);
    }
}

/// The executables of a list or a mapping are those of its first part and then those of
/// its second, wherever it is parted.
pub proof fn law_executables_are_in_document_order(
    a: Seq<Doc>,
    b: Seq<Doc>,
    m: Seq<(Doc, Doc)>,
    n: Seq<(Doc, Doc)>,
)
    ensures
        executables_in(Doc::Sequence(a + b)) == executables_in(Doc::Sequence(a)) + executables_in(
            Doc::Sequence(b),
        ),
        executables_in(Doc::Mapping(m + n)) == executables_in(Doc::Mapping(m)) + executables_in(
            Doc::Mapping(n),
        ),
{
    lemma_executables_in_items(a, b, b.len());
    lemma_executables_in_entries(m, n, n.len());
}

/// A list of one item names what the item does. An entry names its text, where its key
/// is `relative` and the text ends in `.exe` in letters of either case, and what stands
/// below it; a text by itself names nothing.
pub proof fn law_where_an_executable_is_named(k: Seq<char>, s: Seq<char>, v: Doc)
    ensures
        executables_in(Doc::Sequence(seq![v])) == executables_in(v),
        ends(lowercase(s), ".exe"@) ==> executables_in(
            Doc::Mapping(seq![(Doc::Text("relative"@), Doc::Text(s))]),
        ) == seq![s],
        !ends(lowercase(s), ".exe"@) ==> executables_in(
            Doc::Mapping(seq![(Doc::Text("relative"@), Doc::Text(s))]),
        ).len() == 0,
        k != "relative"@ ==> executables_in(Doc::Mapping(seq![(Doc::Text(k), v)]))
            == executables_in(v),
        executables_in(Doc::Text(s)).len() == 0,
        executables_in(Doc::Other).len() == 0,
{
    reveal_with_fuel(executables_in_items, 2);
    reveal_with_fuel(executables_in_entries, 2);
    reveal_with_fuel(executables_in, 2);
    let none = Seq::<Seq<char>>::empty();
    let one = seq![v];
    assert(one[0] == v);
    assert(none + executables_in(v) =~= executables_in(v));
    let m = seq![(Doc::Text("relative"@), Doc::Text(s))];
    assert(m[0] == (Doc::Text("relative"@), Doc::Text(s)));
    assert(executables_in(Doc::Text(s)) =~= none);
    assert(none + executable_entry(m[0]) + none =~= executable_entry(m[0]));
    let w = seq![(Doc::Text(k), v)];
    assert(w[0] == (Doc::Text(k), v));
    if k != "relative"@ {
        assert(executable_entry(w[0]) =~= none);
        assert(none + none + executables_in(v) =~= executables_in(v));
    }
}

proof fn lemma_entry_later(m: Seq<(Doc, Doc)>, key: Seq<char>, i: int, k: int)
    requires
        0 <= i <= k <= m.len(),
        forall|j: int| i <= j < k ==> (#[trigger] m[j]).0 != Doc::Text(key),
    ensures
        entry_value(m, key, i) == entry_value(m, key, k),
    decreases k - i,
{
    if i < k {
        assert(m[i].0 != Doc::Text(key));
        lemma_entry_later(m, key, i + 1, k);
    }
}

/// The member of a mapping is the value of the first entry with its key, whatever else
/// the mapping holds; no other node has members.
pub proof fn law_member_is_the_first_entry(m: Seq<(Doc, Doc)>, key: Seq<char>, k: int)
    requires
        0 <= k <= m.len(),
        forall|j: int| 0 <= j < k ==> (#[trigger] m[j]).0 != Doc::Text(key),
        k < m.len() ==> m[k].0 == Doc::Text(key),
    ensures
        k < m.len() ==> member(Doc::Mapping(m), key) == Some(m[k].1),
        k == m.len() ==> member(Doc::Mapping(m), key) is None,
        member(Doc::Text(key), key) is None,
        member(Doc::Other, key) is None,
{
    lemma_entry_later(m, key, 0, k);
}

/// The title of a game is what its key stands for among the localizations, else its
/// sort string, both without white space around them, and else the key itself.
pub proof fn law_title_of_a_game(v: Doc, root: Doc, key: Seq<char>, names: Doc, t: Seq<char>)
    requires
        member(v, "root"@) == Some(root),
        member(root, "name"@) == Some(Doc::Text(key)),
    ensures
        (member(v, "localizations"@) matches Some(l) && member(l, "default"@) == Some(names)
            && member(names, key) == Some(Doc::Text(t))) ==> title_in(v) == Some(trimmed(t)),
        member(v, "localizations"@) is None && member(root, "sort_string"@) == Some(Doc::Text(t))
            ==> title_in(v) == Some(trimmed(t)),
        member(v, "localizations"@) is None && member(root, "sort_string"@) is None ==> title_in(v)
            == Some(key),
{
}

/// A configuration without a root has no title.
pub proof fn law_no_title_without_a_root(v: Doc)
    requires
        member(v, "root"@) is None,
    ensures
        title_in(v) is None,
{
}

proof fn lemma_settings_in_first_items(a: Seq<Doc>, b: Seq<Doc>, n: nat)
    requires
        n <= a.len(),
    ensures
        settings_in_items(a + b, n) == settings_in_items(a, n),
    decreases n,
{
    if n > 0 {
        lemma_settings_in_first_items(a, b, (n - 1) as nat);
        assert((a + b)[n - 1] == a[n - 1]);
    }
}

proof fn lemma_settings_in_items(a: Seq<Doc>, b: Seq<Doc>, n: nat)
    requires
        n <= b.len(),
    ensures
        settings_in_items(a + b, (a.len() + n) as nat) == or_else(
            settings_in_items(a, a.len()),
            settings_in_items(b, n),
        ),
    decreases n,
{
    if n == 0 {
        lemma_settings_in_first_items(a, b, a.len());
    } else {
        lemma_settings_in_items(a, b, (n - 1) as nat);
        assert((a + b)[a.len() + n - 1] == b[n - 1]);
    }
}

proof fn lemma_settings_in_values(m: Seq<(Doc, Doc)>, s: Seq<Doc>, n: nat)
    requires
        s == m.map_values(|e: (Doc, Doc)| e.1),
        n <= m.len(),
    ensures
        settings_in_entries(m, n) == settings_in_items(s, n),
    decreases n,
{
    if n > 0 {
        lemma_settings_in_values(m, s, (n - 1) as nat);
        assert(s[n - 1] == m[n - 1].1);
    }
}

/// The settings application is searched for in document order: in the first part of a
/// list before the second, and in a mapping that does not mark itself among its values.
pub proof fn law_settings_are_searched_in_order(a: Seq<Doc>, b: Seq<Doc>, m: Seq<(Doc, Doc)>)
    ensures
        settings_in(Doc::Sequence(a + b)) == (match settings_in(Doc::Sequence(a)) {
            Some(s) => Some(s),
            None => settings_in(Doc::Sequence(b)),
        }),
        own_settings(m) is None ==> settings_in(Doc::Mapping(m)) == settings_in(
            Doc::Sequence(m.map_values(|e: (Doc, Doc)| e.1)),
        ),
        own_settings(m) is Some ==> settings_in(Doc::Mapping(m)) == own_settings(m),
{
    lemma_settings_in_items(a, b, b.len());
    lemma_settings_in_values(m, m.map_values(|e: (Doc, Doc)| e.1), m.len());
}

proof fn lemma_labelled_later(m: Seq<(Doc, Doc)>, key: Seq<char>, i: int, k: int)
    requires
        0 <= i <= k <= m.len(),
        forall|j: int| i <= j < k ==> (#[trigger] m[j]).0 is Text && m[j].0 != Doc::Text(key),
    ensures
        labelled(m, key, i) == labelled(m, key, k),
    decreases k - i,
{
    if i < k {
        assert(m[i].0 is Text);
        lemma_labelled_later(m, key, i + 1, k);
    }
}

/// A mapping that names an executable, and whose internal name, name or description
/// speaks of settings or of a configuration, is the settings application; one without
/// such a mark is not.
pub proof fn law_settings_application_marks_itself(
    m: Seq<(Doc, Doc)>,
    rel: Seq<char>,
    r: int,
    key: Seq<char>,
    mark: Seq<char>,
    k: int,
)
    requires
        0 <= r < m.len(),
        m[r] == (Doc::Text("relative"@), Doc::Text(rel)),
        ends(lowercase(rel), ".exe"@),
        forall|j: int|
            0 <= j < r ==> (#[trigger] m[j]).0 is Text && m[j].0 != Doc::Text("relative"@),
    ensures
        0 <= k < m.len() && m[k] == (Doc::Text(key), Doc::Text(mark)) && (key == "internal_name"@
            || key == "description"@ || key == "name"@) && (occurs(lowercase(mark), "setting"@)
            || occurs(lowercase(mark), "config"@)) ==> settings_in(Doc::Mapping(m)) == Some(rel),
        (forall|j: int|
            0 <= j < m.len() ==> ((#[trigger] m[j]).0 matches Doc::Text(t) && !occurs(
                lowercase(t),
                "internal_name"@,
            ) && !occurs(lowercase(t), "description"@) && lowercase(t) != "name"@) && m[j].1
                is Text) ==> settings_in(Doc::Mapping(m)) is None,
        (forall|j: int|
            0 <= j < m.len() ==> ((#[trigger] m[j]).1 matches Doc::Text(t) && !occurs(
                lowercase(t),
                "setting"@,
            ) && !occurs(lowercase(t), "config"@))) ==> settings_in(Doc::Mapping(m)) is None,
{
    lemma_labelled_later(m, "relative"@, 0, r);
    if 0 <= k < m.len() && m[k] == (Doc::Text(key), Doc::Text(mark)) && (key == "internal_name"@
        || key == "description"@ || key == "name"@) && (occurs(lowercase(mark), "setting"@)
        || occurs(lowercase(mark), "config"@)) {
        reveal_strlit("internal_name");
        reveal_strlit("description");
        reveal_strlit("name");
        assert(is_ascii_chars(key));
        assert(lowercase(key) =~= key);
        assert(key.subrange(0, key.len() as int) =~= key);
        assert(occurs_at(key, key, 0));
        assert(marks_settings(m[k]));
    }
    if forall|j: int|
        0 <= j < m.len() ==> ((#[trigger] m[j]).0 matches Doc::Text(t) && !occurs(
            lowercase(t),
            "internal_name"@,
        ) && !occurs(lowercase(t), "description"@) && lowercase(t) != "name"@) && m[j].1 is Text {
        assert forall|j: int| 0 <= j < m.len() implies !#[trigger] marks_settings(m[j]) by {
            assert(m[j].0 is Text);
        }
        assert(own_settings(m) is None);
        lemma_no_settings_in_texts(m, m.len());
    }
    if forall|j: int|
        0 <= j < m.len() ==> ((#[trigger] m[j]).1 matches Doc::Text(t) && !occurs(
            lowercase(t),
            "setting"@,
        ) && !occurs(lowercase(t), "config"@)) {
        assert forall|j: int| 0 <= j < m.len() implies !#[trigger] marks_settings(m[j]) by {
            assert(m[j].1 is Text);
        }
        assert(own_settings(m) is None);
        lemma_no_settings_in_texts(m, m.len());
    }
}

proof fn lemma_no_settings_in_texts(m: Seq<(Doc, Doc)>, n: nat)
    requires
        n <= m.len(),
        forall|j: int| 0 <= j < m.len() ==> (#[trigger] m[j]).1 is Text,
    ensures
        settings_in_entries(m, n) is None,
    decreases n,
{
    if n > 0 {
        lemma_no_settings_in_texts(m, (n - 1) as nat);
        assert(m[n - 1].1 is Text);
        assert(settings_in(m[n - 1].1) is None);
    }
}

proof fn lemma_no_own_register(m: Seq<(Doc, Doc)>, n: nat)
    requires
        n <= m.len(),
        forall|j: int|
            0 <= j < n ==> (#[trigger] m[j]).0 is Text && m[j].0 != Doc::Text("register"@),
    ensures
        own_register(m, n) is None,
    decreases n,
{
    if n > 0 {
        lemma_no_own_register(m, (n - 1) as nat);
        assert(m[n - 1].0 is Text);
    }
}

/// A mapping names a registry location in its entry `register`, where that speaks of
/// `HKEY`, in letters of either case.
pub proof fn law_register_of_a_mapping(m: Seq<(Doc, Doc)>, s: Seq<char>, k: int)
    requires
        0 <= k < m.len(),
        m[k] == (Doc::Text("register"@), Doc::Text(s)),
        occurs(uppercase(s), "HKEY"@),
        forall|j: int|
            0 <= j < k ==> (#[trigger] m[j]).0 is Text && m[j].0 != Doc::Text("register"@),
    ensures
        own_register(m, m.len()) == Some(s),
        register_in(Doc::Mapping(m)) == Some(s),
{
    lemma_no_own_register(m, k as nat);
    assert(own_register(m, (k + 1) as nat) == Some(s));
    lemma_own_register(m, (k + 1) as nat);
}

/// What is not in a registry is not taken for a location there.
pub proof fn law_location_is_in_a_registry(m: Seq<(Doc, Doc)>, n: nat)
    requires
        n <= m.len(),
    ensures
        own_register(m, n) matches Some(s) ==> occurs(uppercase(s), "HKEY"@),
    decreases n,
{
    if n > 0 {
        law_location_is_in_a_registry(m, (n - 1) as nat);
    }
}

proof fn lemma_working_dir_in_first_entries(a: Seq<(Doc, Doc)>, b: Seq<(Doc, Doc)>, n: nat)
    requires
        n <= a.len(),
    ensures
        working_dir_register_in_entries(a + b, n) == working_dir_register_in_entries(a, n),
    decreases n,
{
    if n > 0 {
        lemma_working_dir_in_first_entries(a, b, (n - 1) as nat);
        assert((a + b)[n - 1] == a[n - 1]);
    }
}

proof fn lemma_working_dir_in_entries(a: Seq<(Doc, Doc)>, b: Seq<(Doc, Doc)>, n: nat)
    requires
        n <= b.len(),
    ensures
        working_dir_register_in_entries(a + b, (a.len() + n) as nat) == or_else(
            working_dir_register_in_entries(a, a.len()),
            working_dir_register_in_entries(b, n),
        ),
    decreases n,
{
    if n == 0 {
        lemma_working_dir_in_first_entries(a, b, a.len());
    } else {
        lemma_working_dir_in_entries(a, b, (n - 1) as nat);
        assert((a + b)[a.len() + n - 1] == b[n - 1]);
    }
}

proof fn lemma_working_dir_in_first_items(a: Seq<Doc>, b: Seq<Doc>, n: nat)
    requires
        n <= a.len(),
    ensures
        working_dir_register_in_items(a + b, n) == working_dir_register_in_items(a, n),
    decreases n,
{
    if n > 0 {
        lemma_working_dir_in_first_items(a, b, (n - 1) as nat);
        assert((a + b)[n - 1] == a[n - 1]);
    }
}

proof fn lemma_working_dir_in_items(a: Seq<Doc>, b: Seq<Doc>, n: nat)
    requires
        n <= b.len(),
    ensures
        working_dir_register_in_items(a + b, (a.len() + n) as nat) == or_else(
            working_dir_register_in_items(a, a.len()),
            working_dir_register_in_items(b, n),
        ),
    decreases n,
{
    if n == 0 {
        lemma_working_dir_in_first_items(a, b, a.len());
    } else {
        lemma_working_dir_in_items(a, b, (n - 1) as nat);
        assert((a + b)[a.len() + n - 1] == b[n - 1]);
    }
}

/// The location of a working directory is searched for in document order, at any depth.
pub proof fn law_working_directories_are_searched_in_order(
    a: Seq<Doc>,
    b: Seq<Doc>,
    m: Seq<(Doc, Doc)>,
    n: Seq<(Doc, Doc)>,
    k: Seq<char>,
    v: Doc,
)
    ensures
        working_dir_register_in(Doc::Sequence(a + b)) == (match working_dir_register_in(
            Doc::Sequence(a),
        ) {
            Some(s) => Some(s),
            None => working_dir_register_in(Doc::Sequence(b)),
        }),
        working_dir_register_in(Doc::Mapping(m + n)) == (match working_dir_register_in(
            Doc::Mapping(m),
        ) {
            Some(s) => Some(s),
            None => working_dir_register_in(Doc::Mapping(n)),
        }),
        working_dir_register_in(Doc::Sequence(seq![v])) == working_dir_register_in(v),
        k != "working_directory"@ ==> working_dir_register_in(
            Doc::Mapping(seq![(Doc::Text(k), v)]),
        ) == working_dir_register_in(v),
{
    lemma_working_dir_in_items(a, b, b.len());
    lemma_working_dir_in_entries(m, n, n.len());
    let one = seq![v];
    assert(one[0] == v);
    assert(working_dir_register_in_items(one, 0) is None);
    assert(working_dir_register_in_items(one, 1) == working_dir_register_in(v));
    let w = seq![(Doc::Text(k), v)];
    assert(w[0] == (Doc::Text(k), v));
    if k != "working_directory"@ {
        assert(working_dir_entry(w[0]) is None);
        assert(working_dir_register_in_entries(w, 0) is None);
        assert(working_dir_register_in_entries(w, 1) == working_dir_register_in(v));
    }
}

proof fn lemma_no_working_dir(m: Seq<(Doc, Doc)>, n: nat)
    requires
        n <= m.len(),
        forall|j: int|
            0 <= j < n ==> ((#[trigger] m[j]).0 matches Doc::Text(k) && k != "working_directory"@)
                && (m[j].1 is Text || (m[j].1 matches Doc::Mapping(w) && forall|i: int|
                0 <= i < w.len() ==> (#[trigger] w[i]).1 is Text)),
    ensures
        working_dir_register_in_entries(m, n) is None,
    decreases n,
{
    if n > 0 {
        lemma_no_working_dir(m, (n - 1) as nat);
        let e = m[n - 1];
        assert(e.0 is Text);
        assert(working_dir_entry(e) is None);
        if let Doc::Mapping(w) = e.1 {
            lemma_no_working_dir_in_texts(w, w.len());
        }
        assert(working_dir_register_in(e.1) is None);
    }
}

proof fn lemma_no_working_dir_in_texts(m: Seq<(Doc, Doc)>, n: nat)
    requires
        n <= m.len(),
        forall|i: int| 0 <= i < m.len() ==> (#[trigger] m[i]).1 is Text,
    ensures
        working_dir_register_in_entries(m, n) is None,
    decreases n,
{
    if n > 0 {
        lemma_no_working_dir_in_texts(m, (n - 1) as nat);
        assert(m[n - 1].1 is Text);
        assert(working_dir_register_in(m[n - 1].1) is None);
        assert(working_dir_entry(m[n - 1]) is None);
    }
}

/// A game looks for its install path where its working directory says, whatever
/// locations other entries name before it and whatever follows.
pub proof fn law_working_directory_names_the_install_path(
    before: Seq<(Doc, Doc)>,
    s: Seq<char>,
    after: Seq<(Doc, Doc)>,
)
    requires
        occurs(uppercase(s), "HKEY"@),
        forall|j: int|
            0 <= j < before.len() ==> ((#[trigger] before[j]).0 matches Doc::Text(k) && k
                != "working_directory"@) && (before[j].1 is Text || (before[j].1 matches Doc::Mapping(
                w,
            ) && forall|i: int| 0 <= i < w.len() ==> (#[trigger] w[i]).1 is Text)),
    ensures
        install_register_in(
            Doc::Mapping(
                before + seq![
                    (
                        Doc::Text("working_directory"@),
                        Doc::Mapping(seq![(Doc::Text("register"@), Doc::Text(s))]),
                    ),
                ] + after,
            ),
        ) == Some(s),
{
    let inner = seq![(Doc::Text("register"@), Doc::Text(s))];
    assert(inner[0] == (Doc::Text("register"@), Doc::Text(s)));
    law_register_of_a_mapping(inner, s, 0);
    let e = (Doc::Text("working_directory"@), Doc::Mapping(inner));
    let one = seq![e];
    assert(one[0] == e);
    assert(working_dir_entry(e) == Some(s));
    reveal_with_fuel(working_dir_register_in_entries, 2);
    assert(working_dir_register_in_entries(one, 1) == Some(s));
    lemma_no_working_dir(before, before.len());
    lemma_working_dir_in_entries(before, one, 1);
    lemma_working_dir_in_entries(before + one, after, after.len());
}

proof fn lemma_register_in_values(m: Seq<(Doc, Doc)>, s: Seq<Doc>, n: nat)
    requires
        s == m.map_values(|e: (Doc, Doc)| e.1),
        n <= m.len(),
    ensures
        register_in_entries(m, n) == register_in_items(s, n),
    decreases n,
{
    if n > 0 {
        lemma_register_in_values(m, s, (n - 1) as nat);
        assert(s[n - 1] == m[n - 1].1);
    }
}

proof fn lemma_register_in_first_items(a: Seq<Doc>, b: Seq<Doc>, n: nat)
    requires
        n <= a.len(),
    ensures
        register_in_items(a + b, n) == register_in_items(a, n),
    decreases n,
{
    if n > 0 {
        lemma_register_in_first_items(a, b, (n - 1) as nat);
        assert((a + b)[n - 1] == a[n - 1]);
    }
}

proof fn lemma_register_in_items(a: Seq<Doc>, b: Seq<Doc>, n: nat)
    requires
        n <= b.len(),
    ensures
        register_in_items(a + b, (a.len() + n) as nat) == or_else(
            register_in_items(a, a.len()),
            register_in_items(b, n),
        ),
    decreases n,
{
    if n == 0 {
        lemma_register_in_first_items(a, b, a.len());
    } else {
        lemma_register_in_items(a, b, (n - 1) as nat);
        assert((a + b)[a.len() + n - 1] == b[n - 1]);
    }
}

/// Without a working directory that names a location, the first that is named anywhere
/// is taken: in a mapping its own before those below it, and those in document order.
pub proof fn law_any_location_stands_in(a: Seq<Doc>, b: Seq<Doc>, m: Seq<(Doc, Doc)>, v: Doc)
    ensures
        working_dir_register_in(v) is None ==> install_register_in(v) == register_in(v),
        register_in(Doc::Sequence(a + b)) == (match register_in(Doc::Sequence(a)) {
            Some(s) => Some(s),
            None => register_in(Doc::Sequence(b)),
        }),
        own_register(m, m.len()) is None ==> register_in(Doc::Mapping(m)) == register_in(
            Doc::Sequence(m.map_values(|e: (Doc, Doc)| e.1)),
        ),
        own_register(m, m.len()) is Some ==> register_in(Doc::Mapping(m)) == own_register(
            m,
            m.len(),
        ),
{
    lemma_register_in_items(a, b, b.len());
    lemma_register_in_values(m, m.map_values(|e: (Doc, Doc)| e.1), m.len());
}

/// The function that picks an executable gives the first whose upper case form ends in
/// `SP.EXE`, in whatever directory it is, and else the first of all.
pub proof fn law_pick_executable_prefers_single_player(
    exes: &Vec<String>,
    r: Option<String>,
    k: int,
)
    requires
        call_ensures(pick_executable, (exes,), r),
        0 <= k <= exes@.len(),
        forall|j: int| 0 <= j < k ==> !ends(uppercase((#[trigger] exes@[j])@), "SP.EXE"@),
        k < exes@.len() ==> ends(uppercase((exes@[k])@), "SP.EXE"@),
    ensures
        k < exes@.len() ==> (r matches Some(e) && e@ == (exes@[k])@),
        k == exes@.len() && k > 0 ==> (r matches Some(e) && e@ == (exes@[0])@),
        exes@.len() == 0 ==> r is None,
{
    let l = texts(exes@);
    assert forall|j: int| 0 <= j < k implies !ends(uppercase(#[trigger] l[j]), "SP.EXE"@) by {
        assert(l[j] == (exes@[j])@);
    }
    law_first_single_player_executable_is_picked(l, k);
}

/// A tag does not hide a text or the members of a mapping; what is searched through does
/// not go into a tagged node.
pub proof fn law_tags_are_looked_through(v: Doc, key: Seq<char>, s: Seq<char>)
    ensures
        member(Doc::Tagged(Box::new(v)), key) == member(v, key),
        ends(lowercase(s), ".exe"@) ==> executables_in(
            Doc::Mapping(seq![(Doc::Text("relative"@), Doc::Tagged(Box::new(Doc::Text(s))))]),
        ) == seq![s],
        executables_in(Doc::Tagged(Box::new(v))).len() == 0,
        settings_in(Doc::Tagged(Box::new(v))) is None,
        register_in(Doc::Tagged(Box::new(v))) is None,
        working_dir_register_in(Doc::Tagged(Box::new(v))) is None,
{
    let t = Doc::Tagged(Box::new(Doc::Text(s)));
    let m = seq![(Doc::Text("relative"@), t)];
    assert(m[0] == (Doc::Text("relative"@), t));
    assert(text_of(Doc::Text(s)) == Some(s));
    assert(text_of(t) == Some(s));
    let none = Seq::<Seq<char>>::empty();
    assert(executables_in(t) =~= none);
    assert(executables_in_entries(m, 0) =~= none);
    assert(executables_in_entries(m, 1) =~= executable_entry(m[0]));
}

} // verus!
