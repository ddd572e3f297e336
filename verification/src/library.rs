//! The games of an account: which of them a listing shows, how it reads, and what
//! an installation starts from.
use std::collections::HashMap;

use vstd::prelude::*;

use crate::demux::OwnedGame;
use crate::path::{join, law_join_tells_paths_apart, under};
use crate::product::{game_name, title_of};
use crate::retry::{after_failures, Retry};
use crate::text::{
    begins, chars_of, decimal, decimal_of, ends, flag, flag_of, law_decimals_differ,
    law_text_around_another, lemma_decimal_value, lemma_joined_stands, lemma_still_stands, occurs,
    opt_text, signed, signed_of,
};

verus! {

// ---------------------------------------------------------------------------
// What a listing shows
// ---------------------------------------------------------------------------

/// A flag that is off where it is not given.
pub open spec fn is_set(f: Option<bool>) -> bool {
    f == Some(true)
}

fn set(f: Option<bool>) -> (r: bool)
    ensures
        r == is_set(f),
{
    match f {
        Some(b) => b,
        None => false,
    }
}

/// The type of a product, that of a game where it is not given.
pub open spec fn type_of(g: OwnedGame) -> i32 {
    match g.product_type {
        Some(t) => t,
        None => 0,
    }
}

fn product_type(g: &OwnedGame) -> (r: i32)
    ensures
        r == type_of(*g),
{
    match g.product_type {
        Some(t) => t,
        None => 0,
    }
}

/// A product that is listed: the account owns it, and it is a game and no add-on,
/// unless products of every type are asked for.
pub open spec fn is_listed(g: OwnedGame, show_all: bool) -> bool {
    is_set(g.owned) && (show_all || type_of(g) == 0)
}

/// A product whose manifest the listing gives.
pub open spec fn has_manifest(g: OwnedGame) -> bool {
    g.latest_manifest matches Some(m) && m@.len() > 0
}

fn manifest_given(g: &OwnedGame) -> (r: bool)
    ensures
        r == has_manifest(*g),
{
    match &g.latest_manifest {
        Some(m) => !m.as_str().is_empty(),
        None => false,
    }
}

/// A list that is ordered by product id with `g` put in, behind those of the same
/// id.
pub open spec fn placed(l: Seq<OwnedGame>, g: OwnedGame) -> Seq<OwnedGame>
    decreases l.len(),
{
    if l.len() == 0 || l.last().product_id <= g.product_id {
        l.push(g)
    } else {
        placed(l.drop_last(), g).push(l.last())
    }
}

/// The listed ones among the first `n` products, ordered by product id.
pub open spec fn games_in(products: Seq<OwnedGame>, show_all: bool, n: int) -> Seq<OwnedGame>
    decreases n,
{
    if n <= 0 || n > products.len() {
        seq![]
    } else {
        let before = games_in(products, show_all, n - 1);
        if is_listed(products[n - 1], show_all) {
            placed(before, products[n - 1])
        } else {
            before
        }
    }
}

/// The games that some references refer to.
pub open spec fn referred(l: Seq<&OwnedGame>) -> Seq<OwnedGame> {
    Seq::new(l.len(), |i: int| *l[i])
}

proof fn lemma_placed(l: Seq<OwnedGame>, g: OwnedGame, k: int)
    requires
        0 <= k <= l.len(),
        forall|i: int| k <= i < l.len() ==> (#[trigger] l[i]).product_id > g.product_id,
        k > 0 ==> l[k - 1].product_id <= g.product_id,
    ensures
        placed(l, g) == l.insert(k, g),
    decreases l.len(),
{
    if k == l.len() {
        assert(l.insert(k, g) =~= l.push(g));
    } else {
        lemma_placed(l.drop_last(), g, k);
        assert(l.drop_last().insert(k, g).push(l.last()) =~= l.insert(k, g));
    }
}

/// The owned games of a catalog, ordered by product id; where all are asked for, the
/// owned products of every type.
pub fn owned<'a>(products: &'a Vec<OwnedGame>, show_all: bool) -> (r: Vec<&'a OwnedGame>)
    ensures
        referred(r@) == games_in(products@, show_all, products@.len() as int),
{
    let mut r: Vec<&OwnedGame> = Vec::new();
    let mut i: usize = 0;
    while i < products.len()
        invariant
            i <= products.len(),
            referred(r@) == games_in(products@, show_all, i as int),
        decreases products.len() - i,
    {
        let g = &products[i];
        if set(g.owned) && (show_all || product_type(g) == 0) {
            let ghost before = r@;
            let mut k: usize = r.len();
            while k > 0 && r[k - 1].product_id > g.product_id
                invariant
                    k <= r.len(),
                    r@ == before,
                    forall|j: int| k <= j < r.len() ==> (#[trigger] referred(r@)[j]).product_id
                        > g.product_id,
                decreases k,
            {
                assert(referred(r@)[k - 1] == *r@[k - 1]);
                k -= 1;
            }
            proof {
                if k > 0 {
                    assert(referred(r@)[k - 1] == *r@[k - 1]);
                }
                lemma_placed(referred(before), *g, k as int);
            }
            r.insert(k, g);
            assert(referred(r@) =~= referred(before).insert(k as int, *g));
        }
        i += 1;
    }
    r
}

/// The order of a listing.
pub open spec fn is_ordered(l: Seq<OwnedGame>) -> bool {
    forall|i: int, j: int|
        0 <= i <= j < l.len() ==> (#[trigger] l[i]).product_id <= (#[trigger] l[j]).product_id
}

proof fn lemma_placed_ordered(l: Seq<OwnedGame>, g: OwnedGame)
    requires
        is_ordered(l),
    ensures
        is_ordered(placed(l, g)),
        placed(l, g).len() == l.len() + 1,
        placed(l, g).to_multiset() == l.to_multiset().insert(g),
        forall|i: int|
            0 <= i < placed(l, g).len() ==> (#[trigger] placed(l, g)[i]).product_id <= g.product_id
                || (l.len() > 0 && placed(l, g)[i].product_id <= l.last().product_id),
    decreases l.len(),
{
    broadcast use vstd::seq_lib::group_to_multiset_ensures;

    if l.len() == 0 || l.last().product_id <= g.product_id {
    } else {
        let m = l.drop_last();
        lemma_placed_ordered(m, g);
        assert(m.push(l.last()) =~= l);
    }
}

/// A listing is ordered by product id and holds every game that is owned, each as
/// often as the catalog has it, and nothing else; where all are asked for, every
/// product that is owned.
pub proof fn law_listing_is_ordered_and_whole(products: Seq<OwnedGame>, show_all: bool, n: int)
    requires
        0 <= n <= products.len(),
    ensures
        is_ordered(games_in(products, show_all, n)),
        games_in(products, show_all, n).to_multiset() == products.take(n).filter(
            |g: OwnedGame|
                g.owned == Some(true) && (show_all || g.product_type is None || g.product_type
                    == Some(0i32)),
        ).to_multiset(),
    decreases n,
{
    broadcast use vstd::seq_lib::group_to_multiset_ensures;

    let keep = |g: OwnedGame|
        g.owned == Some(true) && (show_all || g.product_type is None || g.product_type == Some(
            0i32,
        ));
    if n == 0 {
        assert(products.take(0) =~= Seq::empty());
        reveal(Seq::filter);
        assert(products.take(0).filter(keep) =~= Seq::empty());
    } else {
        law_listing_is_ordered_and_whole(products, show_all, n - 1);
        let g = products[n - 1];
        let before = games_in(products, show_all, n - 1);
        assert(products.take(n).drop_last() =~= products.take(n - 1));
        assert(products.take(n).last() == g);
        reveal(Seq::filter);
        if keep(g) {
            lemma_placed_ordered(before, g);
        }
    }
}

proof fn lemma_placed_keeps(l: Seq<OwnedGame>, g: OwnedGame, show_all: bool)
    requires
        forall|i: int| 0 <= i < l.len() ==> is_listed(#[trigger] l[i], show_all),
        is_listed(g, show_all),
    ensures
        forall|i: int|
            0 <= i < placed(l, g).len() ==> is_listed(#[trigger] placed(l, g)[i], show_all),
    decreases l.len(),
{
    if l.len() > 0 && l.last().product_id > g.product_id {
        let m = l.drop_last();
        assert forall|i: int| 0 <= i < m.len() implies is_listed(#[trigger] m[i], show_all) by {
            assert(m[i] == l[i]);
        }
        lemma_placed_keeps(m, g, show_all);
        assert(is_listed(l[l.len() - 1], show_all));
        assert forall|i: int| 0 <= i < placed(l, g).len() implies is_listed(
            #[trigger] placed(l, g)[i],
            show_all,
        ) by {
            if i < placed(m, g).len() {
                assert(placed(l, g)[i] == placed(m, g)[i]);
            }
        }
    }
}

proof fn lemma_listed(products: Seq<OwnedGame>, show_all: bool, n: int)
    requires
        0 <= n <= products.len(),
    ensures
        forall|i: int|
            0 <= i < games_in(products, show_all, n).len() ==> is_listed(
                #[trigger] games_in(products, show_all, n)[i],
                show_all,
            ),
    decreases n,
{
    if n > 0 {
        lemma_listed(products, show_all, n - 1);
        if is_listed(products[n - 1], show_all) {
            lemma_placed_keeps(games_in(products, show_all, n - 1), products[n - 1], show_all);
        }
    }
}

/// A product that is not owned is not listed, whatever is asked for. Unless products
/// of every type are asked for, what is listed is a game.
pub proof fn law_only_owned_games_are_listed(products: Seq<OwnedGame>, show_all: bool, n: int)
    requires
        0 <= n <= products.len(),
    ensures
        forall|i: int|
            0 <= i < games_in(products, show_all, n).len() ==> (#[trigger] games_in(
                products,
                show_all,
                n,
            )[i]).owned == Some(true),
        !show_all ==> forall|i: int|
            0 <= i < games_in(products, show_all, n).len() ==> (#[trigger] games_in(
                products,
                show_all,
                n,
            )[i]).product_type is None || games_in(products, show_all, n)[i].product_type == Some(
                0i32,
            ),
{
    lemma_listed(products, show_all, n);
    let l = games_in(products, show_all, n);
    assert forall|i: int| 0 <= i < l.len() implies (#[trigger] l[i]).owned == Some(true) by {
        assert(is_listed(l[i], show_all));
    }
    if !show_all {
        assert forall|i: int| 0 <= i < l.len() implies (#[trigger] l[i]).product_type is None
            || l[i].product_type == Some(0i32) by {
            assert(is_listed(l[i], show_all));
        }
    }
}

/// The products among the first `n` whose manifest has to be asked for.
pub open spec fn missing_in(l: Seq<OwnedGame>, n: int) -> Seq<u32>
    decreases n,
{
    if n <= 0 || n > l.len() {
        seq![]
    } else if has_manifest(l[n - 1]) {
        missing_in(l, n - 1)
    } else {
        missing_in(l, n - 1).push(l[n - 1].product_id)
    }
}

/// The products whose manifest has to be asked for.
pub fn missing(games: &Vec<&OwnedGame>) -> (r: Vec<u32>)
    ensures
        r@ == missing_in(referred(games@), games@.len() as int),
{
    let mut r: Vec<u32> = Vec::new();
    let mut i: usize = 0;
    while i < games.len()
        invariant
            i <= games.len(),
            r@ == missing_in(referred(games@), i as int),
        decreases games.len() - i,
    {
        assert(referred(games@)[i as int] == *games@[i as int]);
        if !manifest_given(games[i]) {
            r.push(games[i].product_id);
        }
        i += 1;
    }
    r
}

/// A game with a build: the listing gives its manifest, or it could be resolved.
pub open spec fn is_installable(g: OwnedGame, resolved: Map<u32, String>) -> bool {
    has_manifest(g) || resolved.contains_key(g.product_id)
}

/// Whether a game has a build.
pub fn installable(g: &OwnedGame, resolved: &HashMap<u32, String>) -> (r: bool)
    ensures
        r == is_installable(*g, resolved@),
{
    broadcast use vstd::std_specs::hash::group_hash_axioms;

    manifest_given(g) || resolved.contains_key(&g.product_id)
}

/// The first `n` games, without those that have no build where they are to be
/// hidden.
pub open spec fn shown_in(
    l: Seq<OwnedGame>,
    resolved: Map<u32, String>,
    hide: bool,
    n: int,
) -> Seq<OwnedGame>
    decreases n,
{
    if n <= 0 || n > l.len() {
        seq![]
    } else if !hide || is_installable(l[n - 1], resolved) {
        shown_in(l, resolved, hide, n - 1).push(l[n - 1])
    } else {
        shown_in(l, resolved, hide, n - 1)
    }
}

/// The games that a listing shows.
pub fn shown<'a>(
    games: &Vec<&'a OwnedGame>,
    resolved: &HashMap<u32, String>,
    hide: bool,
) -> (r: Vec<&'a OwnedGame>)
    ensures
        referred(r@) == shown_in(referred(games@), resolved@, hide, games@.len() as int),
{
    let mut r: Vec<&OwnedGame> = Vec::new();
    let mut i: usize = 0;
    while i < games.len()
        invariant
            i <= games.len(),
            referred(r@) == shown_in(referred(games@), resolved@, hide, i as int),
        decreases games.len() - i,
    {
        assert(referred(games@)[i as int] == *games@[i as int]);
        if !hide || installable(games[i], resolved) {
            let ghost before = r@;
            r.push(games[i]);
            assert(referred(r@) =~= referred(before).push(*games@[i as int]));
        }
        i += 1;
    }
    r
}

/// Whether games without a build are hidden: where the user asks for it, and
/// always in the listing for programs; never where everything is asked for.
pub fn hides(show_all: bool, hide_unavailable: bool, json: bool) -> (r: bool)
    ensures
        r == (!show_all && (hide_unavailable || json)),
{
    !show_all && (hide_unavailable || json)
}

/// How many of the first `n` games have a build.
pub open spec fn installable_count(l: Seq<OwnedGame>, resolved: Map<u32, String>, n: int) -> nat
    decreases n,
{
    if n <= 0 || n > l.len() {
        0
    } else {
        installable_count(l, resolved, n - 1) + (if is_installable(l[n - 1], resolved) {
            1nat
        } else {
            0nat
        })
    }
}

/// How many games have a build.
pub fn count_installable(games: &Vec<&OwnedGame>, resolved: &HashMap<u32, String>) -> (r: usize)
    ensures
        r == installable_count(referred(games@), resolved@, games@.len() as int),
{
    let mut r: usize = 0;
    let mut i: usize = 0;
    while i < games.len()
        invariant
            r <= i <= games.len(),
            r == installable_count(referred(games@), resolved@, i as int),
        decreases games.len() - i,
    {
        assert(referred(games@)[i as int] == *games@[i as int]);
        if installable(games[i], resolved) {
            r += 1;
        }
        i += 1;
    }
    r
}

// ---------------------------------------------------------------------------
// How it reads
// ---------------------------------------------------------------------------

/// The title that a product's configuration gives.
pub open spec fn title_of_game(g: OwnedGame) -> Option<Seq<char>> {
    match g.configuration {
        Some(c) => title_of(c@),
        None => None,
    }
}

/// The title that a product's configuration gives.
pub fn title(g: &OwnedGame) -> (r: Option<String>)
    ensures
        opt_text(r) == title_of_game(*g),
{
    match &g.configuration {
        Some(c) => game_name(c.as_str()),
        None => None,
    }
}

/// The title of a product, and its id where it has none.
pub open spec fn title_or_id(title: Option<Seq<char>>, product_id: u32) -> Seq<char> {
    match title {
        Some(t) => t,
        None => decimal(product_id as nat),
    }
}

/// The title of a product, and its id where it has none.
pub fn display_name(title: Option<String>, product_id: u32) -> (r: String)
    ensures
        r@ == title_or_id(opt_text(title), product_id),
{
    match title {
        Some(t) => t,
        None => decimal_of(product_id as u64),
    }
}

/// A game in the listing for programs.
#[derive(Debug)]
pub struct Row {
    pub product_id: u32,
    pub name: String,
    pub installable: bool,
}

/// What a row says.
pub open spec fn row_of(r: Row) -> (u32, Seq<char>, bool) {
    (r.product_id, r.name@, r.installable)
}

/// A game in the listing for programs.
pub fn row(g: &OwnedGame, resolved: &HashMap<u32, String>) -> (r: Row)
    ensures
        row_of(r) == (
            g.product_id,
            title_or_id(title_of_game(*g), g.product_id),
            is_installable(*g, resolved@),
        ),
{
    Row {
        product_id: g.product_id,
        name: display_name(title(g), g.product_id),
        installable: installable(g, resolved),
    }
}

/// The listing for programs.
pub fn rows(games: &Vec<&OwnedGame>, resolved: &HashMap<u32, String>) -> (r: Vec<Row>)
    ensures
        r@.len() == games@.len(),
        forall|i: int|
            0 <= i < r@.len() ==> row_of(#[trigger] r@[i]) == (
                games@[i].product_id,
                title_or_id(title_of_game(*games@[i]), games@[i].product_id),
                is_installable(*games@[i], resolved@),
            ),
{
    let mut r: Vec<Row> = Vec::new();
    let mut i: usize = 0;
    while i < games.len()
        invariant
            i <= games.len(),
            r@.len() == i,
            forall|j: int|
                0 <= j < i ==> row_of(#[trigger] r@[j]) == (
                    games@[j].product_id,
                    title_or_id(title_of_game(*games@[j]), games@[j].product_id),
                    is_installable(*games@[j], resolved@),
                ),
        decreases games.len() - i,
    {
        r.push(row(games[i], resolved));
        i += 1;
    }
    r
}

/// The first line of a listing.
pub open spec fn heading_text(shown: nat, installable: nat, total: nat) -> Seq<char> {
    decimal(shown) + " owned games ("@ + decimal(installable) + " installable, "@ + decimal(total)
        + " total catalog entries):"@
}

/// The first line of a listing.
pub fn heading(shown: usize, installable: usize, total: usize) -> (r: String)
    ensures
        r@ == heading_text(shown as nat, installable as nat, total as nat),
{
    let mut r = decimal_of(shown as u64);
    r.append(" owned games (");
    r.append(decimal_of(installable as u64).as_str());
    r.append(" installable, ");
    r.append(decimal_of(total as u64).as_str());
    r.append(" total catalog entries):");
    r
}

/// `s` with spaces behind it, so that it has at least `width` characters.
pub open spec fn padded(s: Seq<char>, width: nat) -> Seq<char> {
    s + Seq::new(
        (if s.len() < width {
            width - s.len()
        } else {
            0
        }) as nat,
        |i: int| ' ',
    )
}

/// Pads a text on the right.
pub fn pad(s: &str, width: usize) -> (r: String)
    ensures
        r@ == padded(s@, width as nat),
{
    let n = chars_of(s).len();
    let mut r = s.to_owned();
    let mut k: usize = n;
    while k < width
        invariant
            n == s@.len(),
            n <= k,
            k <= width || k == n,
            r@ == s@ + Seq::new((k - n) as nat, |i: int| ' '),
        decreases width - k,
    {
        r.push(' ');
        assert(r@ =~= s@ + Seq::new((k + 1 - n) as nat, |i: int| ' '));
        k += 1;
    }
    assert(r@ =~= padded(s@, width as nat));
    r
}

/// What a listing that shows everything says of a product.
pub open spec fn flags_text(g: OwnedGame) -> Seq<char> {
    "  [owned="@ + flag(is_set(g.owned)) + " type="@ + signed(type_of(g) as int) + "]"@
}

/// How a product reads in a listing.
pub open spec fn line_text(
    g: OwnedGame,
    title: Option<Seq<char>>,
    installable: bool,
    show_all: bool,
) -> Seq<char> {
    "  "@ + padded(
        match title {
            Some(t) => t,
            None => "<unknown>"@,
        },
        45,
    ) + "  (product_id="@ + decimal(g.product_id as nat) + ")"@ + (if show_all {
        flags_text(g)
    } else {
        seq![]
    }) + (if installable {
        seq![]
    } else {
        "  [no Ubisoft build — Steam-linked/delisted]"@
    })
}

/// How a product reads in a listing.
pub fn entry_line(g: &OwnedGame, title: Option<String>, installable: bool, show_all: bool) -> (r: String)
    ensures
        r@ == line_text(*g, opt_text(title), installable, show_all),
{
    let name = match title {
        Some(t) => t,
        None => "<unknown>".to_owned(),
    };
    let mut r = "  ".to_owned();
    r.append(pad(name.as_str(), 45).as_str());
    r.append("  (product_id=");
    r.append(decimal_of(g.product_id as u64).as_str());
    r.append(")");
    let ghost a = r@;
    if show_all {
        let mut f = "  [owned=".to_owned();
        f.append(flag_of(set(g.owned)));
        f.append(" type=");
        f.append(signed_of(product_type(g)).as_str());
        f.append("]");
        r.append(f.as_str());
    } else {
        assert(a + seq![] =~= a);
    }
    let ghost b = r@;
    if !installable {
        r.append("  [no Ubisoft build — Steam-linked/delisted]");
    } else {
        assert(b + seq![] =~= b);
    }
    r
}

/// The lines of the games of a listing.
fn game_lines(
    games: &Vec<&OwnedGame>,
    resolved: &HashMap<u32, String>,
    show_all: bool,
    out: &mut Vec<String>,
)
    ensures
        final(out)@.len() == old(out)@.len() + games@.len(),
        forall|i: int| 0 <= i < old(out)@.len() ==> #[trigger] final(out)@[i] == old(out)@[i],
        forall|i: int|
            old(out)@.len() <= i < final(out)@.len() ==> (#[trigger] final(out)@[i])@
                == game_line(*games@[i - old(out)@.len()], resolved@, show_all),
{
    let mut i: usize = 0;
    while i < games.len()
        invariant
            i <= games.len(),
            out@.len() == old(out)@.len() + i,
            forall|j: int| 0 <= j < old(out)@.len() ==> #[trigger] out@[j] == old(out)@[j],
            forall|j: int|
                old(out)@.len() <= j < out@.len() ==> (#[trigger] out@[j])@ == game_line(
                    *games@[j - old(out)@.len()],
                    resolved@,
                    show_all,
                ),
        decreases games.len() - i,
    {
        out.push(entry_line(games[i], title(games[i]), installable(games[i], resolved), show_all));
        i += 1;
    }
}

/// How a game reads in a listing.
pub open spec fn game_line(g: OwnedGame, resolved: Map<u32, String>, show_all: bool) -> Seq<char> {
    line_text(g, title_of_game(g), is_installable(g, resolved), show_all)
}

/// The listing of a catalog: a heading, and a line for each game that is shown, in
/// the order of the product ids.
pub fn listing(
    products: &Vec<OwnedGame>,
    resolved: &HashMap<u32, String>,
    show_all: bool,
    hide_unavailable: bool,
) -> (r: Vec<String>)
    ensures
        ({
            let games = games_in(products@, show_all, products@.len() as int);
            let hide = !show_all && hide_unavailable;
            let shown = shown_in(games, resolved@, hide, games.len() as int);
            &&& r@.len() == shown.len() + 1
            &&& r@[0]@ == heading_text(
                shown.len(),
                installable_count(games, resolved@, games.len() as int),
                products@.len(),
            )
            &&& forall|i: int|
                1 <= i < r@.len() ==> (#[trigger] r@[i])@ == game_line(
                    shown[i - 1],
                    resolved@,
                    show_all,
                )
        }),
{
    let games = owned(products, show_all);
    let shown = shown(&games, resolved, hides(show_all, hide_unavailable, false));
    let mut r: Vec<String> = Vec::new();
    r.push(heading(shown.len(), count_installable(&games, resolved), products.len()));
    game_lines(&shown, resolved, show_all, &mut r);
    assert forall|i: int| 1 <= i < r@.len() implies (#[trigger] r@[i])@ == game_line(
        referred(shown@)[i - 1],
        resolved@,
        show_all,
    ) by {}
    r
}

/// The listing of a catalog for programs: the games that have a build, or
/// everything where that is asked for.
pub fn listed_rows(
    products: &Vec<OwnedGame>,
    resolved: &HashMap<u32, String>,
    show_all: bool,
) -> (r: Vec<Row>)
    ensures
        ({
            let games = games_in(products@, show_all, products@.len() as int);
            let shown = shown_in(games, resolved@, !show_all, games.len() as int);
            &&& r@.len() == shown.len()
            &&& forall|i: int|
                0 <= i < r@.len() ==> row_of(#[trigger] r@[i]) == (
                    shown[i].product_id,
                    title_or_id(title_of_game(shown[i]), shown[i].product_id),
                    is_installable(shown[i], resolved@),
                )
        }),
{
    let games = owned(products, show_all);
    let shown = shown(&games, resolved, hides(show_all, false, true));
    let r = rows(&shown, resolved);
    assert forall|i: int| 0 <= i < r@.len() implies row_of(#[trigger] r@[i]) == (
        referred(shown@)[i].product_id,
        title_or_id(title_of_game(referred(shown@)[i]), referred(shown@)[i].product_id),
        is_installable(referred(shown@)[i], resolved@),
    ) by {}
    r
}

// ---------------------------------------------------------------------------
// What an installation starts from
// ---------------------------------------------------------------------------

/// The first product from `i` on with this id, and where `owned_only`, that the
/// account owns.
pub open spec fn product_from(
    products: Seq<OwnedGame>,
    product_id: u32,
    owned_only: bool,
    i: int,
) -> Option<OwnedGame>
    decreases products.len() - i,
{
    if i < 0 || i >= products.len() {
        None
    } else if products[i].product_id == product_id && (!owned_only || is_set(products[i].owned)) {
        Some(products[i])
    } else {
        product_from(products, product_id, owned_only, i + 1)
    }
}

/// What a reference refers to.
pub open spec fn game(g: Option<&OwnedGame>) -> Option<OwnedGame> {
    match g {
        Some(x) => Some(*x),
        None => None,
    }
}

/// Finds a product of the catalog, and where `owned_only`, one that the account
/// owns.
pub fn find_product<'a>(
    products: &'a Vec<OwnedGame>,
    product_id: u32,
    owned_only: bool,
) -> (r: Option<&'a OwnedGame>)
    ensures
        game(r) == product_from(products@, product_id, owned_only, 0),
{
    let mut i: usize = 0;
    while i < products.len()
        invariant
            i <= products.len(),
            product_from(products@, product_id, owned_only, 0) == product_from(
                products@,
                product_id,
                owned_only,
                i as int,
            ),
        decreases products.len() - i,
    {
        if products[i].product_id == product_id && (!owned_only || set(products[i].owned)) {
            return Some(&products[i]);
        }
        i += 1;
    }
    None
}

/// A game that is not owned is neither installed nor launched: what is found for
/// that is a product of the catalog, with the id that was asked for, and owned.
pub proof fn law_only_owned_games_are_found(products: Seq<OwnedGame>, product_id: u32, i: int)
    requires
        0 <= i,
    ensures
        product_from(products, product_id, true, i) matches Some(g) ==> products.contains(g)
            && g.product_id == product_id && is_set(g.owned),
    decreases products.len() - i,
{
    if i < products.len() {
        if products[i].product_id == product_id && is_set(products[i].owned) {
            assert(products.contains(products[i]));
        } else {
            law_only_owned_games_are_found(products, product_id, i + 1);
        }
    }
}

/// The manifest that the listing gives for a product.
pub fn stored_manifest(g: &OwnedGame) -> (r: Option<String>)
    ensures
        match r {
            Some(m) => has_manifest(*g) && g.latest_manifest == Some(m),
            None => !has_manifest(*g),
        },
{
    match &g.latest_manifest {
        Some(m) => {
            if m.as_str().is_empty() {
                None
            } else {
                Some(m.clone())
            }
        },
        None => None,
    }
}

/// Where a game is installed where the user names no other place.
pub open spec fn default_dir(home: Seq<char>, product_id: u32) -> Seq<char> {
    under(under(home, "Games/optima"@), decimal(product_id as nat))
}

/// Where a game is installed.
pub fn install_dir(path: Option<String>, home: &str, product_id: u32) -> (r: String)
    ensures
        r@ == (match path {
            Some(p) => p@,
            None => default_dir(home@, product_id),
        }),
{
    match path {
        Some(p) => p,
        None => join(
            join(home, "Games/optima").as_str(),
            decimal_of(product_id as u64).as_str(),
        ),
    }
}

/// Each product is installed in a place of its own.
pub proof fn law_products_have_their_own_place(home: Seq<char>, a: u32, b: u32)
    ensures
        default_dir(home, a) == default_dir(home, b) <==> a == b,
{
    lemma_decimal_value(a as nat);
    lemma_decimal_value(b as nat);
    law_join_tells_paths_apart(
        under(home, "Games/optima"@),
        decimal(a as nat),
        decimal(b as nat),
    );
    law_decimals_differ(a as nat, b as nat);
}

/// How often a whole installation is tried again.
pub const INSTALL_RETRIES: u32 = 30;

/// How many seconds pass before an installation is tried again: more with each
/// failure, so that the network is not flooded, and thirty at most.
pub open spec fn seconds_before(attempt: int) -> int {
    if 3 * attempt < 30 {
        3 * attempt
    } else {
        30
    }
}

/// How many seconds pass before an installation is tried again.
pub fn backoff(attempt: u32) -> (r: u64)
    ensures
        r == seconds_before(attempt as int),
{
    let n = 3 * attempt as u64;
    if n < 30 {
        n
    } else {
        30
    }
}

/// A run of an installation failed: how many seconds to wait before the next one,
/// and nothing where it is given up.
pub fn after_failed_run(retry: &mut Retry) -> (r: Option<u64>)
    requires
        old(retry).wf(),
    ensures
        final(retry).wf(),
        r is Some <==> old(retry).attempt < old(retry).limit,
        r matches Some(n) ==> final(retry).attempt == old(retry).attempt + 1 && final(retry).limit
            == old(retry).limit && n == seconds_before(final(retry).attempt as int),
        r is None ==> *final(retry) == *old(retry),
{
    if retry.failed() {
        Some(backoff(retry.attempt))
    } else {
        None
    }
}

/// What happened to an installation, or to what was done to go on with it.
#[derive(Clone, Copy, Debug, PartialEq, Eq, Structural)]
pub enum RunEvent {
    /// A run failed.
    Failed,
    /// The time before the next run is over.
    Waited,
    /// The services were reached with the ticket that there is, or not.
    Reconnected(bool),
    /// The session was exchanged for a new ticket, or not.
    Exchanged(bool),
}

/// What comes next.
#[derive(Clone, Copy, Debug, PartialEq, Eq, Structural)]
pub enum RunStep {
    GiveUp,
    Wait { seconds: u64 },
    /// Reach the services with the ticket that there is.
    Reconnect,
    /// Exchange the session for a new ticket, and reach the services with that.
    Exchange,
    Run,
}

/// What comes after an event, where `retry` has counted the failures before it. A
/// new ticket is asked for only where the one that there is does not do; where none
/// is given, the run is tried all the same.
pub open spec fn step_after(retry: Retry, event: RunEvent) -> RunStep {
    match event {
        RunEvent::Failed => if retry.attempt < retry.limit {
            RunStep::Wait { seconds: seconds_before(retry.attempt + 1) as u64 }
        } else {
            RunStep::GiveUp
        },
        RunEvent::Waited => RunStep::Reconnect,
        RunEvent::Reconnected(true) => RunStep::Run,
        RunEvent::Reconnected(false) => RunStep::Exchange,
        RunEvent::Exchanged(_) => RunStep::Run,
    }
}

/// Takes an event, and says what comes next. Only a failed run is counted.
pub fn next_run_step(retry: &mut Retry, event: RunEvent) -> (r: RunStep)
    requires
        old(retry).wf(),
    ensures
        final(retry).wf(),
        r == step_after(*old(retry), event),
        *final(retry) == (if event is Failed {
            after_failures(*old(retry), 1)
        } else {
            *old(retry)
        }),
{
    match event {
        RunEvent::Failed => {
            proof {
                reveal_with_fuel(after_failures, 2);
            }
            match after_failed_run(retry) {
                Some(seconds) => RunStep::Wait { seconds },
                None => RunStep::GiveUp,
            }
        },
        RunEvent::Waited => RunStep::Reconnect,
        RunEvent::Reconnected(ok) => {
            if ok {
                RunStep::Run
            } else {
                RunStep::Exchange
            }
        },
        RunEvent::Exchanged(_) => RunStep::Run,
    }
}

/// The ticket is exchanged, which is done sparingly, only after the services could
/// not be reached with the one that there is. An installation is given up only
/// when a run fails after as many failures as are forgiven.
pub proof fn law_tickets_are_exchanged_sparingly(retry: Retry, event: RunEvent)
    ensures
        step_after(retry, event) is Exchange <==> event == RunEvent::Reconnected(false),
        step_after(retry, event) is GiveUp <==> event is Failed && retry.attempt >= retry.limit,
{
}

// ---------------------------------------------------------------------------
// What a listing promises
// ---------------------------------------------------------------------------

/// Each owned game of the catalog is listed, whatever else is known of it; where all
/// are asked for, each owned product.
pub proof fn law_each_owned_game_is_listed(products: Seq<OwnedGame>, show_all: bool, k: int)
    requires
        0 <= k < products.len(),
        products[k].owned == Some(true),
        show_all || products[k].product_type is None || products[k].product_type == Some(0i32),
    ensures
        games_in(products, show_all, products.len() as int).contains(products[k]),
{
    broadcast use vstd::seq_lib::group_to_multiset_ensures;

    let n = products.len() as int;
    let keep = |g: OwnedGame|
        g.owned == Some(true) && (show_all || g.product_type is None || g.product_type == Some(
            0i32,
        ));
    law_listing_is_ordered_and_whole(products, show_all, n);
    assert(products.take(n) =~= products);
    products.lemma_filter_contains(keep, k);
    let kept = products.filter(keep);
    assert(kept.to_multiset().count(products[k]) > 0);
}

proof fn lemma_placed_same_id(l: Seq<OwnedGame>, g: OwnedGame, id: u32)
    ensures
        placed(l, g).filter(|x: OwnedGame| x.product_id == id) == (if g.product_id == id {
            l.filter(|x: OwnedGame| x.product_id == id).push(g)
        } else {
            l.filter(|x: OwnedGame| x.product_id == id)
        }),
    decreases l.len(),
{
    let p = |x: OwnedGame| x.product_id == id;
    if l.len() == 0 || l.last().product_id <= g.product_id {
        l.lemma_filter_push(g, p);
    } else {
        let m = l.drop_last();
        lemma_placed_same_id(m, g, id);
        placed(m, g).lemma_filter_push(l.last(), p);
        m.lemma_filter_push(l.last(), p);
        assert(m.push(l.last()) =~= l);
    }
}

/// Products of the same id are listed in the order of the catalog.
pub proof fn law_same_ids_keep_their_order(
    products: Seq<OwnedGame>,
    show_all: bool,
    n: int,
    id: u32,
)
    requires
        0 <= n <= products.len(),
    ensures
        games_in(products, show_all, n).filter(|g: OwnedGame| g.product_id == id)
            == products.take(n).filter(
            |g: OwnedGame|
                g.owned == Some(true) && (show_all || g.product_type is None || g.product_type
                    == Some(0i32)),
        ).filter(|g: OwnedGame| g.product_id == id),
    decreases n,
{
    let keep = |g: OwnedGame|
        g.owned == Some(true) && (show_all || g.product_type is None || g.product_type == Some(
            0i32,
        ));
    let p = |g: OwnedGame| g.product_id == id;
    if n == 0 {
        reveal(Seq::filter);
        assert(products.take(0) =~= Seq::empty());
        assert(products.take(0).filter(keep) =~= Seq::empty());
    } else {
        law_same_ids_keep_their_order(products, show_all, n - 1, id);
        let g = products[n - 1];
        let kept = products.take(n - 1).filter(keep);
        assert(products.take(n) =~= products.take(n - 1).push(g));
        products.take(n - 1).lemma_filter_push(g, keep);
        if keep(g) {
            lemma_placed_same_id(games_in(products, show_all, n - 1), g, id);
            kept.lemma_filter_push(g, p);
        }
    }
}

/// A manifest is asked for, for exactly the games that the listing gives none or an
/// empty one for, in their order.
pub proof fn law_missing_manifests_are_asked_for(l: Seq<OwnedGame>, n: int)
    requires
        0 <= n <= l.len(),
    ensures
        missing_in(l, n) == l.take(n).filter(
            |g: OwnedGame| g.latest_manifest is None || g.latest_manifest->0@.len() == 0,
        ).map_values(|g: OwnedGame| g.product_id),
    decreases n,
{
    let lacks = |g: OwnedGame| g.latest_manifest is None || g.latest_manifest->0@.len() == 0;
    let id = |g: OwnedGame| g.product_id;
    if n == 0 {
        reveal(Seq::filter);
        assert(l.take(0) =~= Seq::empty());
        assert(l.take(0).filter(lacks) =~= Seq::empty());
        assert(l.take(0).filter(lacks).map_values(id) =~= Seq::empty());
    } else {
        law_missing_manifests_are_asked_for(l, n - 1);
        let kept = l.take(n - 1).filter(lacks);
        assert(l.take(n) =~= l.take(n - 1).push(l[n - 1]));
        l.take(n - 1).lemma_filter_push(l[n - 1], lacks);
        assert(kept.push(l[n - 1]).map_values(id) =~= kept.map_values(id).push(
            l[n - 1].product_id,
        ));
    }
}

/// A game can be installed where the listing gives a manifest for it that is not empty,
/// or one was resolved, and in no other case.
pub proof fn law_installable_games_have_a_manifest(g: OwnedGame, resolved: Map<u32, String>)
    ensures
        is_installable(g, resolved) <==> (g.latest_manifest is Some && g.latest_manifest->0@.len()
            > 0) || resolved.dom().contains(g.product_id),
{
}

/// A listing shows every game, and without those that cannot be installed every other,
/// in their order.
pub proof fn law_hidden_games_cannot_be_installed(
    l: Seq<OwnedGame>,
    resolved: Map<u32, String>,
    n: int,
)
    requires
        0 <= n <= l.len(),
    ensures
        shown_in(l, resolved, false, n) == l.take(n),
        shown_in(l, resolved, true, n) == l.take(n).filter(
            |g: OwnedGame|
                (g.latest_manifest is Some && g.latest_manifest->0@.len() > 0)
                    || resolved.dom().contains(g.product_id),
        ),
        installable_count(l, resolved, n) == l.take(n).filter(
            |g: OwnedGame|
                (g.latest_manifest is Some && g.latest_manifest->0@.len() > 0)
                    || resolved.dom().contains(g.product_id),
        ).len(),
    decreases n,
{
    let can = |g: OwnedGame|
        (g.latest_manifest is Some && g.latest_manifest->0@.len() > 0) || resolved.dom().contains(
            g.product_id,
        );
    if n == 0 {
        reveal(Seq::filter);
        assert(l.take(0) =~= Seq::empty());
        assert(l.take(0).filter(can) =~= Seq::empty());
        assert(shown_in(l, resolved, false, 0) =~= l.take(0));
        assert(shown_in(l, resolved, true, 0) =~= l.take(0).filter(can));
    } else {
        law_hidden_games_cannot_be_installed(l, resolved, n - 1);
        assert(l.take(n) =~= l.take(n - 1).push(l[n - 1]));
        l.take(n - 1).lemma_filter_push(l[n - 1], can);
    }
}

/// A game goes by its title, and by its id where it has none.
pub proof fn law_game_goes_by_its_title(g: OwnedGame, t: Seq<char>)
    ensures
        g.configuration is None ==> title_of_game(g) is None,
        g.configuration matches Some(c) ==> title_of_game(g) == title_of(c@),
        title_or_id(Some(t), g.product_id) == t,
        title_or_id(None, g.product_id) == decimal(g.product_id as nat),
{
}

/// A padded text begins with the text, goes on with spaces, and is as wide as is asked
/// for, or as the text where that is wider.
pub proof fn law_padding_is_space(s: Seq<char>, width: nat, i: int)
    ensures
        padded(s, width).len() == (if s.len() < width {
            width
        } else {
            s.len()
        }),
        padded(s, width).take(s.len() as int) == s,
        s.len() <= i < padded(s, width).len() ==> padded(s, width)[i] == ' ',
{
    assert(padded(s, width).take(s.len() as int) =~= s);
}

proof fn lemma_still_begins(s: Seq<char>, more: Seq<char>, p: Seq<char>)
    requires
        begins(s, p),
    ensures
        begins(s + more, p),
{
    assert((s + more).subrange(0, p.len() as int) =~= s.subrange(0, p.len() as int));
}

/// The line of a game begins with its title and holds its id. It says where there is
/// no build, and of what is shown with everything whether it is owned and its type.
pub proof fn law_line_tells_of_its_game(
    g: OwnedGame,
    title: Option<Seq<char>>,
    installable: bool,
    show_all: bool,
)
    ensures
        begins(
            line_text(g, title, installable, show_all),
            "  "@ + (match title {
                Some(t) => t,
                None => "<unknown>"@,
            }),
        ),
        occurs(
            line_text(g, title, installable, show_all),
            "  (product_id="@ + decimal(g.product_id as nat) + ")"@,
        ),
        !installable ==> ends(
            line_text(g, title, installable, show_all),
            "  [no Ubisoft build — Steam-linked/delisted]"@,
        ),
        installable && !show_all ==> line_text(g, title, installable, show_all) == "  "@ + padded(
            match title {
                Some(t) => t,
                None => "<unknown>"@,
            },
            45,
        ) + "  (product_id="@ + decimal(g.product_id as nat) + ")"@,
        show_all && installable ==> ends(
            line_text(g, title, installable, show_all),
            "  [owned="@ + (if g.owned == Some(true) {
                "true"@
            } else {
                "false"@
            }) + " type="@ + signed(
                match g.product_type {
                    Some(t) => t as int,
                    None => 0,
                },
            ) + "]"@,
        ),
{
    let name = match title {
        Some(t) => t,
        None => "<unknown>"@,
    };
    let pad = padded(name, 45);
    let s0 = "  "@ + pad;
    let label = "  (product_id="@;
    let id = decimal(g.product_id as nat);
    let s = s0 + label + id + ")"@;
    let flags = if show_all {
        flags_text(g)
    } else {
        seq![]
    };
    let tag = if installable {
        seq![]
    } else {
        "  [no Ubisoft build — Steam-linked/delisted]"@
    };
    let t = line_text(g, title, installable, show_all);
    assert(t == s + flags + tag);
    lemma_joined_stands(s0, label, id, ")"@);
    lemma_still_stands(s, flags, label + id + ")"@);
    lemma_still_stands(s + flags, tag, label + id + ")"@);
    law_padding_is_space(name, 45, 0);
    let lead = "  "@ + name;
    let gap = pad.skip(name.len() as int);
    assert(pad =~= name + gap);
    assert(s0 =~= lead + gap);
    law_text_around_another(seq![], lead, gap);
    lemma_still_begins(s0, label, lead);
    lemma_still_begins(s0 + label, id, lead);
    lemma_still_begins(s0 + label + id, ")"@, lead);
    lemma_still_begins(s, flags, lead);
    lemma_still_begins(s + flags, tag, lead);
    if !installable {
        law_text_around_another(s + flags, tag, seq![]);
    } else {
        assert(s + flags + tag =~= s + flags);
        law_text_around_another(s, flags, seq![]);
        if !show_all {
            assert(s + flags =~= s);
        }
    }
}

proof fn lemma_product_later(
    products: Seq<OwnedGame>,
    product_id: u32,
    owned_only: bool,
    i: int,
    k: int,
)
    requires
        0 <= i <= k <= products.len(),
        forall|j: int|
            i <= j < k ==> (#[trigger] products[j]).product_id != product_id || (owned_only
                && products[j].owned != Some(true)),
    ensures
        product_from(products, product_id, owned_only, i) == product_from(
            products,
            product_id,
            owned_only,
            k,
        ),
    decreases k - i,
{
    if i < k {
        lemma_product_later(products, product_id, owned_only, i + 1, k);
    }
}

/// A product of the catalog is found by its id: the first that has it and, where that
/// is asked for, is owned. Where none does, none is found.
pub proof fn law_product_is_found_by_its_id(
    products: Seq<OwnedGame>,
    product_id: u32,
    owned_only: bool,
    k: int,
)
    requires
        0 <= k <= products.len(),
        forall|j: int|
            0 <= j < k ==> (#[trigger] products[j]).product_id != product_id || (owned_only
                && products[j].owned != Some(true)),
        k < products.len() ==> products[k].product_id == product_id && (!owned_only
            || products[k].owned == Some(true)),
    ensures
        k < products.len() ==> product_from(products, product_id, owned_only, 0) == Some(
            products[k],
        ),
        k == products.len() ==> product_from(products, product_id, owned_only, 0) is None,
{
    lemma_product_later(products, product_id, owned_only, 0, k);
}

/// A game is installed in a directory that has its id as its name, below the player's
/// own, unless the user names another place.
pub proof fn law_default_place_of_a_game(home: Seq<char>, product_id: u32)
    requires
        home.len() > 0,
        home.last() != '/',
    ensures
        default_dir(home, product_id) == home + "/Games/optima/"@ + decimal(product_id as nat),
{
    reveal_strlit("Games/optima");
    reveal_strlit("/Games/optima/");
    lemma_decimal_value(product_id as nat);
    let d = decimal(product_id as nat);
    assert('0' <= d[0] && d[0] <= '9');
    assert(under(home, "Games/optima"@).last() == 'a');
    assert(default_dir(home, product_id) =~= home + "/Games/optima/"@ + d);
}

/// The pause before an installation is tried again is three seconds longer with each
/// failure, and thirty seconds from the tenth on.
pub proof fn law_pauses_grow_to_half_a_minute(attempt: int)
    requires
        0 <= attempt,
    ensures
        attempt <= 10 ==> seconds_before(attempt) == 3 * attempt,
        attempt >= 10 ==> seconds_before(attempt) == 30,
{
}

/// After a failure there is a pause, then the services are reached again, and then the
/// next run is made, whether or not a new ticket could be had for it.
pub proof fn law_failed_run_is_tried_again(retry: Retry, ok: bool)
    requires
        retry.wf(),
        retry.attempt < retry.limit,
    ensures
        step_after(retry, RunEvent::Failed) == (RunStep::Wait {
            seconds: if retry.attempt < 9 {
                (3 * (retry.attempt + 1)) as u64
            } else {
                30
            },
        }),
        step_after(retry, RunEvent::Waited) == RunStep::Reconnect,
        step_after(retry, RunEvent::Reconnected(true)) == RunStep::Run,
        step_after(retry, RunEvent::Reconnected(false)) == RunStep::Exchange,
        step_after(retry, RunEvent::Exchanged(ok)) == RunStep::Run,
{
}

/// The function that lists gives every product that is owned and a game, or of any type
/// where all are asked for, by rising number, and nothing else.
pub proof fn law_owned_lists_every_game<'a>(
    products: &'a Vec<OwnedGame>,
    show_all: bool,
    r: Vec<&'a OwnedGame>,
    k: int,
    i: int,
    j: int,
)
    requires
        call_ensures(owned, (products, show_all), r),
        0 <= k < products@.len(),
        0 <= i <= j < r@.len(),
    ensures
        products@[k].owned == Some(true) && (show_all || products@[k].product_type is None
            || products@[k].product_type == Some(0i32)) ==> exists|m: int|
            0 <= m < r@.len() && *(#[trigger] r@[m]) == products@[k],
        r@[i].owned == Some(true) && (show_all || r@[i].product_type is None || r@[i].product_type
            == Some(0i32)),
        products@.contains(*r@[i]),
        r@[i].product_id <= r@[j].product_id,
{
    let n = products@.len() as int;
    let l = games_in(products@, show_all, n);
    assert(referred(r@) == l);
    law_listing_is_ordered_and_whole(products@, show_all, n);
    law_only_owned_games_are_listed(products@, show_all, n);
    assert(l[i] == *r@[i] && l[j] == *r@[j]);
    if products@[k].owned == Some(true) && (show_all || products@[k].product_type is None
        || products@[k].product_type == Some(0i32)) {
        law_each_owned_game_is_listed(products@, show_all, k);
        let m = choose|m: int| 0 <= m < l.len() && l[m] == products@[k];
        assert(*r@[m] == products@[k]);
    }
    lemma_listed_is_owned(products@, show_all, l[i]);
}

proof fn lemma_listed_is_owned(products: Seq<OwnedGame>, show_all: bool, g: OwnedGame)
    requires
        games_in(products, show_all, products.len() as int).contains(g),
    ensures
        products.contains(g),
{
    broadcast use vstd::seq_lib::group_to_multiset_ensures;

    let n = products.len() as int;
    let keep = |x: OwnedGame|
        x.owned == Some(true) && (show_all || x.product_type is None || x.product_type == Some(
            0i32,
        ));
    law_listing_is_ordered_and_whole(products, show_all, n);
    assert(products.take(n) =~= products);
    let kept = products.filter(keep);
    assert(kept.to_multiset().count(g) > 0);
    assert(kept.contains(g));
    products.lemma_filter_contains_rev(keep, g);
}

/// What cannot be installed is hidden where that was asked for, and from programs; never
/// where all is asked for.
pub proof fn law_when_games_are_hidden(show_all: bool, hide: bool, json: bool, r: bool)
    requires
        call_ensures(hides, (show_all, hide, json), r),
    ensures
        show_all ==> !r,
        !show_all && hide ==> r,
        !show_all && json ==> r,
        !hide && !json ==> !r,
{
}

/// A listing that hides nothing has a heading and then one line for each game, in order.
pub proof fn law_listing_has_a_line_for_each_game(
    products: &Vec<OwnedGame>,
    resolved: &HashMap<u32, String>,
    show_all: bool,
    r: Vec<String>,
    i: int,
)
    requires
        call_ensures(listing, (products, resolved, show_all, false), r),
        0 <= i < games_in(products@, show_all, products@.len() as int).len(),
    ensures
        r@.len() == games_in(products@, show_all, products@.len() as int).len() + 1,
        (r@[i + 1])@ == game_line(
            games_in(products@, show_all, products@.len() as int)[i],
            resolved@,
            show_all,
        ),
{
    let games = games_in(products@, show_all, products@.len() as int);
    law_hidden_games_cannot_be_installed(games, resolved@, games.len() as int);
    assert(games.take(games.len() as int) =~= games);
    assert(shown_in(games, resolved@, false, games.len() as int) =~= games);
}

/// A game goes where it was asked to go, and else to its own place.
pub proof fn law_game_goes_where_it_was_asked_to(
    path: String,
    home: &str,
    product_id: u32,
    a: String,
    b: String,
)
    requires
        call_ensures(install_dir, (Some(path), home, product_id), a),
        call_ensures(install_dir, (None, home, product_id), b),
    ensures
        a@ == path@,
        b@ == default_dir(home@, product_id),
{
}

proof fn lemma_together(a: Seq<char>, b: Seq<char>, c: Seq<char>)
    ensures
        a + b + c == a + (b + c),
{
    assert(a + b + c =~= a + (b + c));
}

/// The heading tells how many games are shown, how many of all can be installed, and how
/// many products there are.
pub proof fn law_heading_counts(shown: nat, installable: nat, total: nat)
    ensures
        begins(heading_text(shown, installable, total), decimal(shown) + " owned games ("@),
        occurs(
            heading_text(shown, installable, total),
            decimal(installable) + " installable, "@,
        ),
        ends(
            heading_text(shown, installable, total),
            decimal(total) + " total catalog entries):"@,
        ),
{
    let a = decimal(shown) + " owned games ("@;
    let d = decimal(installable);
    let i = " installable, "@;
    let n = decimal(total);
    let t = " total catalog entries):"@;
    let none = Seq::<char>::empty();
    assert(heading_text(shown, installable, total) == a + d + i + n + t);
    law_text_around_another(none, a, d);
    lemma_still_begins(a + d, i, a);
    lemma_still_begins(a + d + i, n, a);
    lemma_still_begins(a + d + i + n, t, a);
    lemma_together(a, d, i);
    lemma_together(a + d + i, n, t);
    law_text_around_another(a, d + i, n + t);
    law_text_around_another(a + d + i, n + t, none);
}

/// A program is told of each game its number, its title or what stands for it, and
/// whether it can be installed.
pub proof fn law_row_tells_of_its_game(
    g: &OwnedGame,
    resolved: &HashMap<u32, String>,
    r: Row,
)
    requires
        call_ensures(row, (g, resolved), r),
    ensures
        row_of(r).0 == g.product_id,
        title_of_game(*g) matches Some(t) ==> row_of(r).1 == t,
        row_of(r).2 <==> is_installable(*g, resolved@),
{
}

} // verus!
