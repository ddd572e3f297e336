//! The client that older games talk to: what they are told of their saved games
//! and of the account, and when.
//!
//! A game asks, and is answered later, when it next gives the client its turn. An
//! answer from within the question would find the game not ready for it.
use std::collections::VecDeque;

use vstd::prelude::*;

verus! {

// ---------------------------------------------------------------------------
// Names
// ---------------------------------------------------------------------------

/// The UTF-16 code units of a character.
pub open spec fn utf16_units(c: char) -> Seq<u16> {
    if (c as u32) < 0x1_0000 {
        seq![c as u16]
    } else {
        seq![
            (0xd800 + (c as u32 - 0x1_0000) / 0x400) as u16,
            (0xdc00 + (c as u32 - 0x1_0000) % 0x400) as u16,
        ]
    }
}

/// The UTF-16 code units of a text.
pub open spec fn utf16_text(s: Seq<char>) -> Seq<u16>
    decreases s.len(),
{
    if s.len() == 0 {
        seq![]
    } else {
        utf16_text(s.drop_last()) + utf16_units(s.last())
    }
}

/// Some units without the zero at their end, if there is one.
pub open spec fn unterminated(u: Seq<u16>) -> Seq<u16> {
    if u.len() > 0 && u.last() == 0 {
        u.drop_last()
    } else {
        u
    }
}

/// A name as games read it: its units up to a zero. There is none where a zero
/// would end it early.
pub open spec fn wide_name(name: Seq<char>) -> Option<Seq<u16>> {
    let u = unterminated(utf16_text(name));
    if u.contains(0u16) {
        None
    } else {
        Some(u.push(0u16))
    }
}

proof fn lemma_units(c: char)
    ensures
        1 <= utf16_units(c).len() <= 2,
        utf16_units(c).len() == 2 <==> 0xdc00 <= utf16_units(c).last() <= 0xdfff,
{
}

proof fn lemma_units_differ(c: char, d: char)
    requires
        utf16_units(c) == utf16_units(d),
    ensures
        c == d,
{
    lemma_units(c);
    lemma_units(d);
    let u = utf16_units(c);
    let v = utf16_units(d);
    assert(u[0] == v[0] && u.last() == v.last());
    if u.len() == 2 {
        let x = c as u32 - 0x1_0000;
        let y = d as u32 - 0x1_0000;
        assert(x / 0x400 == y / 0x400);
        assert(x % 0x400 == y % 0x400);
        assert(x == y);
    }
}

/// Different texts have different units.
pub proof fn law_units_tell_texts_apart(a: Seq<char>, b: Seq<char>)
    requires
        utf16_text(a) == utf16_text(b),
    ensures
        a == b,
    decreases a.len(),
{
    let ta = utf16_text(a);
    let tb = utf16_text(b);
    if a.len() > 0 {
        lemma_units(a.last());
    }
    if b.len() > 0 {
        lemma_units(b.last());
    }
    if a.len() > 0 && b.len() > 0 {
        let ua = utf16_units(a.last());
        let ub = utf16_units(b.last());
        let ra = utf16_text(a.drop_last());
        let rb = utf16_text(b.drop_last());
        assert(ta == ra + ua && tb == rb + ub);
        assert(ta.last() == ua.last() && tb.last() == ub.last());
        assert(ua.len() == ub.len());
        assert(ra =~= ta.take(ta.len() - ua.len()));
        assert(rb =~= tb.take(tb.len() - ub.len()));
        assert(ua =~= ta.skip(ta.len() - ua.len()));
        assert(ub =~= tb.skip(tb.len() - ub.len()));
        lemma_units_differ(a.last(), b.last());
        law_units_tell_texts_apart(a.drop_last(), b.drop_last());
        assert(a =~= a.drop_last().push(a.last()));
        assert(b =~= b.drop_last().push(b.last()));
    } else if a.len() > 0 {
        assert(ta.len() > 0);
    } else if b.len() > 0 {
        assert(tb.len() > 0);
    } else {
        assert(a =~= b);
    }
}

/// `widestring::U16CString::from_str`: the UTF-16 units of the text with a zero at
/// their end, which is added where the text does not end in one, and an error
/// where there is another zero among them.
#[verifier::external_body]
fn to_wide(name: &str) -> (r: Option<Vec<u16>>)
    ensures
        match r {
            Some(v) => wide_name(name@) == Some(v@),
            None => wide_name(name@) is None,
        },
{
    widestring::U16CString::from_str(name).ok().map(|s| s.into_vec_with_nul())
}

/// `widestring::U16Str::to_string`: the text whose UTF-16 units these are, and an
/// error where they are those of none.
#[verifier::external_body]
fn of_wide(units: &[u16]) -> (r: Option<String>)
    ensures
        match r {
            Some(s) => utf16_text(s@) == units@,
            None => forall|s: Seq<char>| #[trigger] utf16_text(s) != units@,
        },
{
    widestring::U16Str::from_slice(units).to_string().ok()
}

// ---------------------------------------------------------------------------
// Answers
// ---------------------------------------------------------------------------

/// A saved game on disk.
#[derive(Debug)]
pub struct SaveFile {
    pub id: u32,
    pub name: String,
    pub size: u64,
}

/// What a game is told of a saved game. The name ends in a zero.
#[derive(Debug)]
pub struct SavegameInfo {
    pub id: u32,
    pub size: u32,
    pub name: Vec<u16>,
}

/// What a game is told of the saved game `f`, its size in the thirty-two bits that
/// it has room for.
pub open spec fn describes(info: SavegameInfo, f: SaveFile) -> bool {
    info.id == f.id && info.size == f.size % 0x1_0000_0000 && wide_name(f.name@) == Some(
        info.name@,
    )
}

/// A name that a game cannot be told.
pub open spec fn has_unspeakable_name(f: SaveFile) -> bool {
    wide_name(f.name@) is None
}

/// What a game is told of its saved games, in order. Nothing is said where it
/// cannot be told the name of one.
pub fn savegame_infos(saves: &Vec<SaveFile>) -> (r: Option<Vec<SavegameInfo>>)
    ensures
        match r {
            Some(l) => l@.len() == saves@.len() && forall|i: int|
                0 <= i < l@.len() ==> describes(#[trigger] l@[i], saves@[i]),
            None => exists|i: int|
                0 <= i < saves@.len() && #[trigger] has_unspeakable_name(saves@[i]),
        },
{
    let mut l: Vec<SavegameInfo> = Vec::new();
    let mut i: usize = 0;
    while i < saves.len()
        invariant
            i <= saves.len(),
            l@.len() == i,
            forall|j: int| 0 <= j < i ==> describes(#[trigger] l@[j], saves@[j]),
        decreases saves.len() - i,
    {
        let f = &saves[i];
        match to_wide(f.name.as_str()) {
            Some(name) => {
                let size: u32 = (f.size % 0x1_0000_0000) as u32;
                l.push(SavegameInfo { id: f.id, size, name });
            },
            None => {
                assert(has_unspeakable_name(saves@[i as int]));
                return None;
            },
        }
        i += 1;
    }
    Some(l)
}

/// An answer that a game is still owed. `listener` tells whom to give it to.
#[derive(Debug)]
pub enum Delivery {
    /// The saved games.
    SavegameList { listener: u32, request_id: u32, saves: Vec<SavegameInfo> },
    /// The account.
    LoginDetails { listener: u32, request_id: u32 },
}

/// The answers that a game is still owed.
#[derive(Debug)]
pub struct Pending {
    pub queue: VecDeque<Delivery>,
}

impl View for Pending {
    type V = Seq<Delivery>;

    open spec fn view(&self) -> Seq<Delivery> {
        self.queue@
    }
}

impl Pending {
    /// Nothing is owed.
    pub fn new() -> (r: Pending)
        ensures
            r@ == Seq::<Delivery>::empty(),
    {
        Pending { queue: VecDeque::new() }
    }

    /// Owes one answer more.
    pub fn defer(&mut self, d: Delivery)
        ensures
            final(self)@ == old(self)@.push(d),
    {
        self.queue.push_back(d);
    }

    /// The answer that has been owed the longest. A game that has its turn is given
    /// answers until none is owed, those that it asks for meanwhile among them.
    pub fn next_delivery(&mut self) -> (r: Option<Delivery>)
        ensures
            match r {
                Some(d) => old(self)@.len() > 0 && d == old(self)@[0] && final(self)@
                    == old(self)@.skip(1),
                None => old(self)@.len() == 0 && final(self)@ == old(self)@,
            },
    {
        let r = self.queue.pop_front();
        proof {
            if old(self)@.len() > 0 {
                assert(self@ =~= old(self)@.skip(1));
            }
        }
        r
    }

    /// A game asks for its saved games; there are none to tell of where they could
    /// not be read. It is only answered where it listens.
    pub fn get_savegame_list(
        &mut self,
        listens: bool,
        listener: u32,
        request_id: u32,
        saves: Option<Vec<SaveFile>>,
    ) -> (answered: bool)
        ensures
            answered == (listens && (saves matches Some(s) && forall|i: int|
                0 <= i < s@.len() ==> !#[trigger] has_unspeakable_name(s@[i]))),
            !answered ==> final(self)@ == old(self)@,
            answered ==> final(self)@.len() == old(self)@.len() + 1 && final(self)@.drop_last()
                == old(self)@ && (final(self)@.last() matches Delivery::SavegameList {
                listener: l,
                request_id: id,
                saves: infos,
            } && l == listener && id == request_id && (saves matches Some(s) && infos@.len()
                == s@.len() && forall|i: int|
                0 <= i < s@.len() ==> describes(#[trigger] infos@[i], s@[i]))),
    {
        if !listens {
            return false;
        }
        if let Some(s) = saves {
            if let Some(infos) = savegame_infos(&s) {
                proof {
                    assert forall|i: int| 0 <= i < s@.len() implies !#[trigger] has_unspeakable_name(
                        s@[i],
                    ) by {
                        assert(describes(infos@[i], s@[i]));
                    }
                }
                self.defer(Delivery::SavegameList { listener, request_id, saves: infos });
                assert(self@.drop_last() =~= old(self)@);
                return true;
            }
        }
        false
    }

    /// A game asks for the account. It is only answered where it listens.
    pub fn get_login_details(&mut self, listens: bool, listener: u32, request_id: u32)
        ensures
            final(self)@ == (if listens {
                old(self)@.push(Delivery::LoginDetails { listener, request_id })
            } else {
                old(self)@
            }),
    {
        if listens {
            self.defer(Delivery::LoginDetails { listener, request_id });
        }
    }
}

/// The queue after `n` of its answers were given.
pub open spec fn after_turns(q: Seq<Delivery>, n: nat) -> Seq<Delivery> {
    q.skip(n as int)
}

/// Answers come in the order of the questions, and one that is asked for in
/// between comes last: it is given after as many others as were owed.
pub proof fn law_answers_keep_their_order(q: Seq<Delivery>, d: Delivery, n: nat)
    requires
        n < q.len(),
    ensures
        after_turns(q.push(d), n)[0] == q[n as int],
        after_turns(q.push(d), q.len())[0] == d,
{
}

/// Whether the launcher is to start the game anew. A game that is told so ends at
/// once and waits for it; it runs on its own here.
pub fn start_launcher() -> (r: bool)
    ensures
        !r,
{
    false
}

/// What a listener hears of an operation on a saved game: how many bytes it
/// moved, or one for a removal. A failure is not heard of.
pub fn completed(listens: bool, succeeded: bool, request_id: u32, count: u32) -> (r: Option<
    (u32, u32),
>)
    ensures
        r == (if listens && succeeded {
            Some((request_id, count))
        } else {
            None
        }),
{
    if listens && succeeded {
        Some((request_id, count))
    } else {
        None
    }
}

/// How a saved game is opened for writing. It can be read and is made where it is
/// missing; what it held is only given up where it is opened anew.
#[derive(Clone, Copy, Debug, PartialEq, Eq, Structural)]
pub struct WriteOptions {
    pub read: bool,
    pub write: bool,
    pub create: bool,
    pub truncate: bool,
}

/// How a saved game is opened for writing.
pub fn write_options(open: bool) -> (r: WriteOptions)
    ensures
        r == (WriteOptions { read: true, write: true, create: true, truncate: open }),
{
    WriteOptions { read: true, write: true, create: true, truncate: open }
}

// ---------------------------------------------------------------------------
// The names of saved games
// ---------------------------------------------------------------------------

/// The name of a saved game.
#[derive(Debug)]
pub struct Save {
    pub id: u32,
    pub name: String,
}

/// Ids and names.
pub open spec fn named(l: Seq<Save>) -> Seq<(u32, Seq<char>)> {
    Seq::new(l.len(), |i: int| (l[i].id, l[i].name@))
}

/// The first name from `i` on that is about `id`.
pub open spec fn name_from(l: Seq<(u32, Seq<char>)>, id: u32, i: int) -> Option<int>
    decreases l.len() - i,
{
    if i < 0 || i >= l.len() {
        None
    } else if l[i].0 == id {
        Some(i)
    } else {
        name_from(l, id, i + 1)
    }
}

/// The names with that of `id` set: the first entry about it is changed, and one
/// is added where there is none.
pub open spec fn renamed(l: Seq<(u32, Seq<char>)>, id: u32, name: Seq<char>) -> Seq<
    (u32, Seq<char>),
> {
    match name_from(l, id, 0) {
        Some(i) => l.update(i, (id, name)),
        None => l.push((id, name)),
    }
}

proof fn lemma_name_from(l: Seq<(u32, Seq<char>)>, id: u32, i: int)
    requires
        0 <= i,
    ensures
        match name_from(l, id, i) {
            Some(k) => i <= k < l.len() && l[k].0 == id && forall|j: int|
                i <= j < k ==> (#[trigger] l[j]).0 != id,
            None => forall|j: int| i <= j < l.len() ==> (#[trigger] l[j]).0 != id,
        },
    decreases l.len() - i,
{
    if i < l.len() && l[i].0 != id {
        lemma_name_from(l, id, i + 1);
    }
}

proof fn lemma_name_from_is(l: Seq<(u32, Seq<char>)>, id: u32, i: int, k: int)
    requires
        0 <= i <= k < l.len(),
        l[k].0 == id,
        forall|j: int| i <= j < k ==> (#[trigger] l[j]).0 != id,
    ensures
        name_from(l, id, i) == Some(k),
    decreases k - i,
{
    if i < k {
        lemma_name_from_is(l, id, i + 1, k);
    }
}

/// Sets the name of a saved game. `units` are what the game gives, up to its zero.
/// Nothing is changed where they are no text.
pub fn set_name(saves: &mut Vec<Save>, id: u32, units: &[u16]) -> (r: bool)
    ensures
        r ==> exists|name: Seq<char>|
            utf16_text(name) == units@ && #[trigger] renamed(named(old(saves)@), id, name)
                == named(final(saves)@),
        !r ==> final(saves)@ == old(saves)@ && forall|s: Seq<char>| #[trigger]
            utf16_text(s) != units@,
{
    let name = match of_wide(units) {
        Some(n) => n,
        None => {
            return false;
        },
    };
    let ghost text = name@;
    let ghost before = named(saves@);
    let mut i: usize = 0;
    while i < saves.len() && saves[i].id != id
        invariant
            i <= saves.len(),
            before == named(saves@),
            saves@ == old(saves)@,
            name_from(before, id, 0) == name_from(before, id, i as int),
        decreases saves.len() - i,
    {
        i += 1;
    }
    if i < saves.len() {
        saves.set(i, Save { id, name });
        assert(named(saves@) =~= before.update(i as int, (id, text)));
    } else {
        saves.push(Save { id, name });
        assert(named(saves@) =~= before.push((id, text)));
    }
    assert(named(saves@) == renamed(before, id, text));
    true
}

/// A saved game that was named has that name, and every other keeps its own.
pub proof fn law_named_save_has_its_name(
    l: Seq<(u32, Seq<char>)>,
    id: u32,
    name: Seq<char>,
    other: u32,
)
    requires
        other != id,
    ensures
        name_from(renamed(l, id, name), id, 0) matches Some(k) && renamed(l, id, name)[k] == (
            id,
            name,
        ),
        match name_from(l, other, 0) {
            Some(k) => name_from(renamed(l, id, name), other, 0) == Some(k) && renamed(
                l,
                id,
                name,
            )[k] == l[k],
            None => name_from(renamed(l, id, name), other, 0) is None,
        },
{
    let m = renamed(l, id, name);
    lemma_name_from(l, id, 0);
    lemma_name_from(l, other, 0);
    match name_from(l, id, 0) {
        Some(k) => {
            lemma_name_from_is(m, id, 0, k);
        },
        None => {
            lemma_name_from_is(m, id, 0, l.len() as int);
        },
    }
    match name_from(l, other, 0) {
        Some(k) => {
            assert forall|j: int| 0 <= j < k implies (#[trigger] m[j]).0 != other by {
                assert(l[j].0 != other);
            }
            lemma_name_from_is(m, other, 0, k);
        },
        None => {
            lemma_name_from(m, other, 0);
            if let Some(k) = name_from(m, other, 0) {
                if k < l.len() {
                    assert(l[k].0 != other);
                }
            }
        },
    }
}

// ---------------------------------------------------------------------------
// What a game is told
// ---------------------------------------------------------------------------

/// A text is written unit by unit: a character of the first plane as itself, and one
/// beyond it as two surrogates, which give it back.
pub proof fn law_text_in_units(a: Seq<char>, c: char)
    ensures
        utf16_text(Seq::<char>::empty()).len() == 0,
        (c as u32) < 0x1_0000 ==> utf16_text(a.push(c)) == utf16_text(a).push(c as u16),
        (c as u32) >= 0x1_0000 ==> utf16_text(a.push(c)).len() == utf16_text(a).len() + 2
            && utf16_text(a.push(c)).take(utf16_text(a).len() as int) == utf16_text(a)
            && 0xd800 <= utf16_text(a.push(c))[utf16_text(a).len() as int] < 0xdc00 && 0xdc00
            <= utf16_text(a.push(c))[utf16_text(a).len() as int + 1] < 0xe000 && (utf16_text(
            a.push(c),
        )[utf16_text(a).len() as int] - 0xd800) * 0x400 + (utf16_text(a.push(c))[utf16_text(
            a,
        ).len() as int + 1] - 0xdc00) + 0x1_0000 == c as u32,
{
    assert(a.push(c).drop_last() =~= a);
    assert(a.push(c).last() == c);
    let u = utf16_text(a);
    let v = utf16_text(a.push(c));
    assert(v == u + utf16_units(c));
    if (c as u32) < 0x1_0000 {
        assert(v =~= u.push(c as u16));
    } else {
        assert(v.take(u.len() as int) =~= u);
        assert(v[u.len() as int] == utf16_units(c)[0]);
        assert(v[u.len() as int + 1] == utf16_units(c)[1]);
    }
}

proof fn lemma_unit_not_zero(c: char)
    requires
        c != '\0',
    ensures
        forall|i: int| 0 <= i < utf16_units(c).len() ==> #[trigger] utf16_units(c)[i] != 0u16,
{
}

proof fn lemma_no_zero_unit(s: Seq<char>)
    requires
        forall|i: int| 0 <= i < s.len() ==> #[trigger] s[i] != '\0',
    ensures
        forall|i: int| 0 <= i < utf16_text(s).len() ==> #[trigger] utf16_text(s)[i] != 0u16,
    decreases s.len(),
{
    if s.len() > 0 {
        let a = s.drop_last();
        let c = s.last();
        assert forall|i: int| 0 <= i < a.len() implies #[trigger] a[i] != '\0' by {
            assert(a[i] == s[i]);
        }
        lemma_no_zero_unit(a);
        assert(c != '\0');
        lemma_unit_not_zero(c);
        let u = utf16_text(a);
        let v = utf16_text(s);
        assert forall|i: int| 0 <= i < v.len() implies #[trigger] v[i] != 0u16 by {
            if i < u.len() {
                assert(v[i] == u[i]);
            } else {
                assert(v[i] == utf16_units(c)[i - u.len()]);
            }
        }
    }
}

/// A name without a zero in it goes to the game whole, with a zero behind it.
pub proof fn law_name_goes_whole(name: Seq<char>)
    requires
        !name.contains('\0'),
    ensures
        wide_name(name) == Some(utf16_text(name) + seq![0u16]),
{
    assert forall|i: int| 0 <= i < name.len() implies #[trigger] name[i] != '\0' by {
        assert(name.contains(name[i]));
    }
    lemma_no_zero_unit(name);
    let u = utf16_text(name);
    assert(unterminated(u) == u);
    assert(!u.contains(0u16));
    assert(u.push(0u16) =~= u + seq![0u16]);
}

/// A saved game is described by its number, its size and its name.
pub proof fn law_saved_game_is_described(info: SavegameInfo, f: SaveFile)
    requires
        f.size <= u32::MAX,
        !f.name@.contains('\0'),
    ensures
        describes(info, f) <==> info.id == f.id && info.size == f.size && info.name@ == utf16_text(
            f.name@,
        ) + seq![0u16],
        !has_unspeakable_name(f),
{
    law_name_goes_whole(f.name@);
}

/// A new name goes to the first saved game of the number, and the others stay as they
/// are; where there is none a saved game is added at the end.
pub proof fn law_new_name_goes_to_its_save(
    l: Seq<(u32, Seq<char>)>,
    id: u32,
    name: Seq<char>,
    k: int,
)
    requires
        0 <= k <= l.len(),
        forall|j: int| 0 <= j < k ==> (#[trigger] l[j]).0 != id,
        k < l.len() ==> l[k].0 == id,
    ensures
        k < l.len() ==> renamed(l, id, name) == l.take(k) + seq![(id, name)] + l.skip(k + 1),
        k == l.len() ==> renamed(l, id, name) == l + seq![(id, name)],
{
    if k < l.len() {
        lemma_name_from_is(l, id, 0, k);
        assert(l.update(k, (id, name)) =~= l.take(k) + seq![(id, name)] + l.skip(k + 1));
    } else {
        lemma_name_from(l, id, 0);
        assert(name_from(l, id, 0) is None);
        assert(l.push((id, name)) =~= l + seq![(id, name)]);
    }
}

} // verus!
