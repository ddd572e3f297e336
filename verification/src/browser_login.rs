//! Signing in with the system browser: what the user pastes, or a redirect to
//! this machine carries, is searched for a session ticket.
use vstd::prelude::*;
use vstd::utf8::is_ascii_chars;

use crate::codec::{from_utf8_lossy, utf8_lossy};
use crate::text::{
    begins, blank, byte_len, bytes_in, chars_of, cut, find, find_text, is_blank, is_space,
    law_line_by_line, law_parted_at_the_first, law_split_at_each_separator, law_trimmed_text,
    lemma_cut_is, lemma_find_occurs, lemma_find_some, lines, lines_of, lower_ascii, lower_char,
    lowercase, occurs, occurs_at, opt_text, parted, pieces, same, space, split, split_once,
    starts_with, string_of, texts, to_lower_ascii, to_lowercase, trim, trimmed,
};

verus! {

/// The sign-in page of the account.
pub const LOGIN_PAGE: &'static str = "https://account.ubisoft.com/";

/// The port on this machine that a redirect may come to.
pub const PORT: u16 = 31034;

/// What a redirect is answered.
pub const RECEIVED: &'static str =
    "HTTP/1.1 200 OK\r\nContent-Type: text/html\r\n\r\n<h2>Optima: ticket received. You can close this tab.</h2>";

/// What stands in front of the ticket in an `Authorization` header.
pub const MARKER: &'static str = "ubi_v1 t=";

/// More bytes than a bare token has at least.
pub const BARE_LEN: usize = 30;

/// The characters that end a ticket.
pub open spec fn ticket_ends() -> Seq<char> {
    seq![' ', ',', ';', '&', '"', '\'']
}

/// The ticket behind the first marker, in either case of letters.
pub open spec fn marked_ticket(s: Seq<char>) -> Option<Seq<char>> {
    match find(lower_ascii(s), MARKER@) {
        Some(i) => {
            let rest = s.skip(i + MARKER@.len());
            let token = trimmed(rest.take(cut(rest, ticket_ends()) as int));
            if token.len() > 0 {
                Some(token)
            } else {
                None
            }
        },
        None => None,
    }
}

/// The names under which a query carries a ticket.
pub open spec fn names_ticket(k: Seq<char>) -> bool {
    let name = lowercase(trimmed(k));
    name == "ticket"@ || name == "token"@ || name == "t"@
}

/// The ticket in one `name=value` pair of a query.
pub open spec fn paired_ticket(pair: Seq<char>) -> Option<Seq<char>> {
    match parted(pair, '=') {
        Some((k, v)) => if names_ticket(k) && !is_blank(v) {
            Some(trimmed(v))
        } else {
            None
        },
        None => None,
    }
}

/// The first ticket in the pairs from `i` on.
pub open spec fn ticket_from(pairs: Seq<Seq<char>>, i: int) -> Option<Seq<char>>
    decreases pairs.len() - i,
{
    if i < 0 || i >= pairs.len() {
        None
    } else {
        match paired_ticket(pairs[i]) {
            Some(t) => Some(t),
            None => ticket_from(pairs, i + 1),
        }
    }
}

/// The ticket in the query of an address.
pub open spec fn queried_ticket(s: Seq<char>) -> Option<Seq<char>> {
    match parted(s, '?') {
        Some((_, query)) => ticket_from(pieces(query, seq!['&']), 0),
        None => None,
    }
}

/// A text that may be a token by itself: long, in one piece and no address.
pub open spec fn is_bare_token(s: Seq<char>) -> bool {
    &&& byte_len(s) > BARE_LEN
    &&& forall|i: int| 0 <= i < s.len() ==> !is_space(#[trigger] s[i])
    &&& !begins(s, "http"@)
}

/// The ticket in free-form input: behind the marker of an `Authorization` header,
/// else in the query of an address, else the input itself.
pub open spec fn ticket_in(input: Seq<char>) -> Option<Seq<char>> {
    let s = trimmed(input);
    match (marked_ticket(s), queried_ticket(s)) {
        (Some(t), _) => Some(t),
        (None, Some(t)) => Some(t),
        (None, None) => if is_bare_token(s) {
            Some(s)
        } else {
            None
        },
    }
}

fn marked(s: &str) -> (r: Option<String>)
    ensures
        opt_text(r) == marked_ticket(s@),
{
    let lower = to_lower_ascii(s);
    proof {
        lemma_find_occurs(lower_ascii(s@), MARKER@);
        reveal_strlit("ubi_v1 t=");
    }
    match find_text(lower.as_str(), MARKER) {
        Some(i) => {
            let v = chars_of(s);
            assert(i + 9 <= v.len());
            let mut rest: Vec<char> = Vec::new();
            let mut k: usize = i + 9;
            while k < v.len()
                invariant
                    i + 9 <= k <= v.len(),
                    rest@ == v@.subrange(i + 9, k as int),
                decreases v.len() - k,
            {
                rest.push(v[k]);
                k += 1;
            }
            assert(rest@ == s@.skip(i + 9));
            let seps: [char; 6] = [' ', ',', ';', '&', '"', '\''];
            assert(seps@ == ticket_ends());
            let text = string_of(rest.as_slice());
            let parts = split(text.as_str(), seps.as_slice());
            proof {
                crate::text::lemma_cut(rest@, ticket_ends());
                assert(texts(parts@)[0] == rest@.take(cut(rest@, ticket_ends()) as int));
            }
            let token = trim(parts[0].as_str());
            if token.as_str().is_empty() {
                None
            } else {
                Some(token)
            }
        },
        None => None,
    }
}

fn paired(pair: &str) -> (r: Option<String>)
    ensures
        opt_text(r) == paired_ticket(pair@),
{
    match split_once(pair, '=') {
        Some((k, v)) => {
            let name = to_lowercase(trim(k.as_str()).as_str());
            let n = name.as_str();
            if (same(n, "ticket") || same(n, "token") || same(n, "t")) && !blank(v.as_str()) {
                Some(trim(v.as_str()))
            } else {
                None
            }
        },
        None => None,
    }
}

fn queried(s: &str) -> (r: Option<String>)
    ensures
        opt_text(r) == queried_ticket(s@),
{
    match split_once(s, '?') {
        Some((_, query)) => {
            let seps: [char; 1] = ['&'];
            assert(seps@ == seq!['&']);
            let pairs = split(query.as_str(), seps.as_slice());
            let mut i: usize = 0;
            while i < pairs.len()
                invariant
                    i <= pairs.len(),
                    ticket_from(texts(pairs@), 0) == ticket_from(texts(pairs@), i as int),
                    texts(pairs@) == pieces(query@, seq!['&']),
                    queried_ticket(s@) == ticket_from(texts(pairs@), 0),
                decreases pairs.len() - i,
            {
                let t = paired(pairs[i].as_str());
                assert(texts(pairs@)[i as int] == pairs@[i as int]@);
                if t.is_some() {
                    return t;
                }
                i += 1;
            }
            None
        },
        None => None,
    }
}

fn spaceless(s: &str) -> (r: bool)
    ensures
        r == (forall|i: int| 0 <= i < s@.len() ==> !is_space(#[trigger] s@[i])),
{
    let v = chars_of(s);
    let mut i: usize = 0;
    while i < v.len()
        invariant
            i <= v.len(),
            v@ == s@,
            forall|j: int| 0 <= j < i ==> !is_space(#[trigger] s@[j]),
        decreases v.len() - i,
    {
        if space(v[i]) {
            assert(is_space(s@[i as int]));
            return false;
        }
        i += 1;
    }
    true
}

/// Finds a session ticket in free-form input: the bare token, a whole
/// `Authorization` header, or an address with `ticket=`, `token=` or `t=` in its
/// query.
pub fn extract_ticket(input: &str) -> (r: Option<String>)
    ensures
        opt_text(r) == ticket_in(input@),
{
    let s = trim(input);
    let t = marked(s.as_str());
    if t.is_some() {
        return t;
    }
    let t = queried(s.as_str());
    if t.is_some() {
        return t;
    }
    if bytes_in(s.as_str()) > BARE_LEN && spaceless(s.as_str()) && !starts_with(
        s.as_str(),
        "http",
    ) {
        Some(s)
    } else {
        None
    }
}

/// What a line on the terminal asks for.
#[derive(Debug)]
pub enum Paste {
    /// The input has ended: only the browser is left to wait for.
    Ended,
    /// Nothing was pasted.
    Blank,
    /// No ticket was found.
    Unrecognized,
    /// A ticket.
    Ticket(String),
}

/// Takes a line from the terminal, with its line end; it is empty at the end of
/// the input.
pub fn read_paste(line: &str) -> (r: Paste)
    ensures
        match r {
            Paste::Ended => line@.len() == 0,
            Paste::Blank => line@.len() > 0 && is_blank(line@),
            Paste::Unrecognized => !is_blank(line@) && ticket_in(trimmed(line@)) is None,
            Paste::Ticket(t) => !is_blank(line@) && ticket_in(trimmed(line@)) == Some(t@),
        },
{
    let input = trim(line);
    if input.as_str().is_empty() {
        if line.is_empty() {
            return Paste::Ended;
        }
        return Paste::Blank;
    }
    proof {
        if line@.len() == 0 {
            assert(trimmed(line@).len() == 0);
        }
    }
    match extract_ticket(input.as_str()) {
        Some(t) => Paste::Ticket(t),
        None => Paste::Unrecognized,
    }
}

/// Where the last word of the first `end` characters starts.
pub open spec fn last_word(s: Seq<char>, end: int) -> int
    decreases end,
{
    if end <= 0 {
        0
    } else if s[end - 1] == ' ' {
        end
    } else {
        last_word(s, end - 1)
    }
}

/// A request line without the protocol at its end.
pub open spec fn without_protocol(line: Seq<char>) -> Seq<char> {
    let t = last_word(line, line.len() as int);
    if t > 0 && begins(line.skip(t), "HTTP/"@) {
        line.take(t - 1)
    } else {
        line
    }
}

/// A request line without the protocol at its end.
fn strip_protocol(line: &str) -> (r: String)
    ensures
        r@ == without_protocol(line@),
{
    let v = chars_of(line);
    let mut t: usize = v.len();
    while t > 0 && v[t - 1] != ' '
        invariant
            t <= v.len(),
            v@ == line@,
            last_word(line@, line@.len() as int) == last_word(line@, t as int),
        decreases t,
    {
        t -= 1;
    }
    if t > 0 {
        let last = string_of(vstd::slice::slice_subrange(v.as_slice(), t, v.len()));
        assert(last@ == line@.skip(t as int));
        if starts_with(last.as_str(), "HTTP/") {
            return string_of(vstd::slice::slice_subrange(v.as_slice(), 0, t - 1));
        }
    }
    line.to_owned()
}

/// What a request to the redirect port carries: nothing where it is empty, which
/// is not answered, and else the ticket, if any, in its first line.
pub open spec fn request_ticket(bytes: Seq<u8>) -> Option<Option<Seq<char>>> {
    let all = lines_of(utf8_lossy(bytes));
    if all.len() == 0 {
        None
    } else {
        Some(ticket_in(without_protocol(all[0])))
    }
}

/// Reads a request to the redirect port, whose first line is like
/// `GET /auth?token=XYZ HTTP/1.1`.
pub fn read_ticket_from_request(bytes: &[u8]) -> (r: Option<Option<String>>)
    ensures
        match r {
            Some(t) => request_ticket(bytes@) == Some(opt_text(t)),
            None => request_ticket(bytes@) is None,
        },
{
    let req = from_utf8_lossy(bytes);
    let all = lines(req.as_str());
    if all.len() == 0 {
        return None;
    }
    assert(texts(all@)[0] == all@[0]@);
    Some(extract_ticket(strip_protocol(all[0].as_str()).as_str()))
}

proof fn lemma_trim_nothing(s: Seq<char>)
    requires
        s.len() > 0,
        !is_space(s[0]),
        !is_space(s.last()),
    ensures
        trimmed(s) == s,
{
}

/// A ticket as it is handed out: one piece, without the characters that end it.
pub open spec fn is_token(t: Seq<char>) -> bool {
    &&& t.len() > 0
    &&& forall|i: int|
        0 <= i < t.len() ==> !is_space(#[trigger] t[i]) && !ticket_ends().contains(t[i])
}

/// Pasting a whole `Authorization` header gives the ticket in it.
pub proof fn law_header_gives_its_ticket(t: Seq<char>)
    requires
        is_token(t),
    ensures
        ticket_in("Authorization: ubi_v1 t="@ + t) == Some(t),
{
    reveal_strlit("Authorization: ubi_v1 t=");
    reveal_strlit("ubi_v1 t=");
    let s = "Authorization: ubi_v1 t="@ + t;
    let low = lower_ascii(s);
    assert(s[0] == 'A' && s.last() == t.last());
    lemma_trim_nothing(s);
    assert(low.subrange(15, 24) =~= MARKER@);
    assert forall|j: int| 0 <= j < 15 implies !#[trigger] occurs_at(low, MARKER@, j) by {
        if occurs_at(low, MARKER@, j) {
            assert(low.subrange(j, j + 9)[0] == low[j]);
            assert(low.subrange(j, j + 9)[1] == low[j + 1]);
            assert(MARKER@[0] == 'u' && MARKER@[1] == 'b');
            assert(low[j] == lower_char(s[j]) && low[j + 1] == lower_char(s[j + 1]));
            assert(false);
        }
    }
    lemma_find_some(low, MARKER@, 15);
    assert(s.skip(24) =~= t);
    lemma_cut_is(t, ticket_ends(), t.len() as int);
    assert(t.take(t.len() as int) =~= t);
    lemma_trim_nothing(t);
}

proof fn lemma_without_protocol(s: Seq<char>)
    ensures
        without_protocol(s + " HTTP/1.1"@) == s,
{
    reveal_strlit(" HTTP/1.1");
    reveal_strlit("HTTP/");
    let n = s.len() as int;
    let line = s + " HTTP/1.1"@;
    reveal_with_fuel(last_word, 10);
    assert(line.len() == n + 9);
    assert(line[n] == ' ');
    assert(last_word(line, n + 9) == n + 1);
    assert(line.skip(n + 1).subrange(0, 5) =~= "HTTP/"@);
    assert(line.take(n) =~= s);
}

/// The only space of such a text is behind its first word, which no marker holds.
proof fn lemma_unmarked(rest: Seq<char>)
    requires
        forall|i: int| 0 <= i < rest.len() ==> !is_space(#[trigger] rest[i]),
    ensures
        marked_ticket("GET "@ + rest) is None,
{
    reveal_strlit("GET ");
    reveal_strlit("ubi_v1 t=");
    let s = "GET "@ + rest;
    let low = lower_ascii(s);
    assert forall|i: int| !occurs_at(low, MARKER@, i) by {
        if occurs_at(low, MARKER@, i) {
            assert(low.subrange(i, i + 9)[6] == low[i + 6]);
            assert(low.subrange(i, i + 9)[5] == low[i + 5]);
            assert(MARKER@[6] == ' ' && MARKER@[5] == '1');
            assert(s[i + 6] == ' ');
            if i + 6 >= 4 {
                assert(s[i + 6] == rest[i + 6 - 4]);
            }
            assert(i + 6 == 3);
            assert(false);
        }
    }
    lemma_find_occurs(low, MARKER@);
}

proof fn lemma_token_pair(t: Seq<char>)
    requires
        is_token(t),
    ensures
        ticket_from(pieces("token="@ + t, seq!['&']), 0) == Some(t),
{
    reveal_strlit("token=");
    reveal_strlit("token");
    let query = "token="@ + t;
    assert forall|j: int| 0 <= j < query.len() implies !seq!['&'].contains(#[trigger] query[j]) by {
        if j >= 6 {
            assert(query[j] == t[j - 6]);
            assert(ticket_ends()[3] == '&');
        }
    }
    lemma_cut_is(query, seq!['&'], query.len() as int);
    assert(pieces(query, seq!['&']) == seq![query]);
    assert(seq!['='].contains('=')) by {
        assert(seq!['='][0] == '=');
    }
    assert forall|j: int| 0 <= j < 5 implies !seq!['='].contains(#[trigger] query[j]) by {}
    lemma_cut_is(query, seq!['='], 5);
    assert(query.take(5) =~= "token"@);
    assert(query.skip(6) =~= t);
    lemma_trim_nothing("token"@);
    lemma_trim_nothing(t);
    assert(is_ascii_chars("token"@));
    assert(lower_ascii("token"@) =~= "token"@);
    assert(seq![query][0] == query);
    assert(paired_ticket(query) == Some(t));
}

/// A redirect gives the ticket in its query, whatever its path.
pub proof fn law_redirect_gives_its_ticket(path: Seq<char>, t: Seq<char>)
    requires
        is_token(t),
        forall|i: int| 0 <= i < path.len() ==> !is_space(#[trigger] path[i]) && path[i] != '?',
    ensures
        ticket_in(
            without_protocol("GET "@ + (path + "?"@ + ("token="@ + t)) + " HTTP/1.1"@),
        ) == Some(t),
{
    reveal_strlit("GET ");
    reveal_strlit("?");
    reveal_strlit("token=");
    let query = "token="@ + t;
    let rest = path + "?"@ + query;
    let s = "GET "@ + rest;
    lemma_without_protocol(s);
    assert(s[0] == 'G');
    assert(s.last() == t.last());
    lemma_trim_nothing(s);
    assert forall|i: int| 0 <= i < rest.len() implies !is_space(#[trigger] rest[i]) by {
        if i < path.len() {
            assert(rest[i] == path[i]);
        } else if i >= path.len() + 7 {
            assert(rest[i] == t[i - path.len() - 7]);
        }
    }
    lemma_unmarked(rest);
    let q = 4 + path.len() as int;
    assert(s[q] == '?');
    assert forall|j: int| 0 <= j < q implies !seq!['?'].contains(#[trigger] s[j]) by {
        if j >= 4 {
            assert(s[j] == path[j - 4]);
        }
    }
    assert(seq!['?'].contains('?')) by {
        assert(seq!['?'][0] == '?');
    }
    lemma_cut_is(s, seq!['?'], q);
    assert(s.skip(q + 1) =~= query);
    lemma_token_pair(t);
}

// ---------------------------------------------------------------------------
// What is found in what is pasted
// ---------------------------------------------------------------------------

proof fn lemma_no_mark_without_a_space(s: Seq<char>)
    requires
        forall|i: int| 0 <= i < s.len() ==> !is_space(#[trigger] s[i]),
    ensures
        marked_ticket(s) is None,
{
    reveal_strlit("ubi_v1 t=");
    let low = lower_ascii(s);
    assert forall|i: int| !occurs_at(low, MARKER@, i) by {
        if occurs_at(low, MARKER@, i) {
            assert(low.subrange(i, i + 9)[6] == low[i + 6]);
            assert(MARKER@[6] == ' ');
            assert(s[i + 6] == ' ');
            assert(false);
        }
    }
    lemma_find_occurs(low, MARKER@);
}

/// A token that is pasted by itself gives itself, whatever white space is round it: a
/// text of more than thirty bytes without white space, which does not begin like an
/// address and has no query.
pub proof fn law_bare_token_gives_itself(a: Seq<char>, t: Seq<char>, b: Seq<char>)
    requires
        byte_len(t) > 30,
        forall|i: int| 0 <= i < t.len() ==> !is_space(#[trigger] t[i]) && t[i] != '?',
        !begins(t, "http"@),
        forall|i: int| 0 <= i < a.len() ==> is_space(#[trigger] a[i]),
        forall|i: int| 0 <= i < b.len() ==> is_space(#[trigger] b[i]),
    ensures
        ticket_in(t) == Some(t),
        ticket_in(a + t + b) == Some(t),
{
    law_trimmed_text(a, t, b);
    law_trimmed_text(seq![], t, seq![]);
    assert(Seq::<char>::empty() + t + Seq::<char>::empty() =~= t);
    lemma_no_mark_without_a_space(t);
    law_parted_at_the_first(t, '?', seq![]);
}

/// What is too short for a token, has white space in it or begins like an address gives
/// no ticket where it has neither the mark of a header nor a query.
pub proof fn law_other_texts_give_no_ticket(t: Seq<char>)
    requires
        t.len() > 0,
        !is_space(t[0]) && !is_space(t.last()),
        forall|i: int| 0 <= i < t.len() ==> #[trigger] t[i] != '?',
        !occurs(lower_ascii(t), "ubi_v1 t="@),
        byte_len(t) <= 30 || begins(t, "http"@) || exists|i: int|
            0 <= i < t.len() && is_space(#[trigger] t[i]),
    ensures
        ticket_in(t) is None,
{
    lemma_trim_nothing(t);
    lemma_find_occurs(lower_ascii(t), MARKER@);
    law_parted_at_the_first(t, '?', seq![]);
}

/// The ticket after the mark of a header, in letters of either case, goes up to the next
/// space, comma, semicolon, ampersand or quotation mark, whatever stands before the mark
/// and after the ticket.
pub proof fn law_marked_ticket_is_found(
    a: Seq<char>,
    m: Seq<char>,
    t: Seq<char>,
    rest: Seq<char>,
)
    requires
        a.len() > 0 ==> !is_space(a[0]),
        forall|j: int| 0 <= j < a.len() - 1 && #[trigger] a[j] == '1' ==> a[j + 1] != ' ',
        lower_ascii(m) == "ubi_v1 t="@,
        t.len() > 0,
        forall|i: int|
            0 <= i < t.len() ==> !is_space(#[trigger] t[i]) && t[i] != ',' && t[i] != ';' && t[i]
                != '&' && t[i] != '"' && t[i] != '\'',
        rest.len() > 0 ==> (rest[0] == ' ' || rest[0] == ',' || rest[0] == ';' || rest[0] == '&'
            || rest[0] == '"' || rest[0] == '\'') && !is_space(rest.last()),
    ensures
        ticket_in(a + m + t + rest) == Some(t),
{
    reveal_strlit("ubi_v1 t=");
    let s = a + m + t + rest;
    let low = lower_ascii(s);
    let k = a.len() as int;
    assert(m.len() == 9) by {
        assert(lower_ascii(m).len() == m.len());
    }
    assert(lower_ascii(m)[0] == 'u');
    assert(s[0] == (if a.len() > 0 { a[0] } else { m[0] }));
    assert(!is_space(s[0])) by {
        if a.len() == 0 {
            assert(lower_char(m[0]) == 'u');
        }
    }
    assert(s.last() == (if rest.len() > 0 { rest.last() } else { t.last() }));
    lemma_trim_nothing(s);
    assert forall|j: int| 0 <= j < 9 implies low[k + j] == #[trigger] MARKER@[j] by {
        assert(s[k + j] == m[j]);
        assert(lower_ascii(m)[j] == lower_char(m[j]));
    }
    assert(low.subrange(k, k + 9) =~= MARKER@);
    assert(occurs_at(low, MARKER@, k));
    assert forall|j: int| 0 <= j < k implies !#[trigger] occurs_at(low, MARKER@, j) by {
        if occurs_at(low, MARKER@, j) {
            assert(low.subrange(j, j + 9)[5] == low[j + 5]);
            assert(low.subrange(j, j + 9)[6] == low[j + 6]);
            assert(MARKER@[5] == '1' && MARKER@[6] == ' ');
            assert(lower_char(s[j + 5]) == '1');
            assert(lower_char(s[j + 6]) == ' ');
            assert(s[j + 5] == '1' && s[j + 6] == ' ');
            if j + 6 < k {
                assert(s[j + 5] == a[j + 5] && s[j + 6] == a[j + 6]);
            } else if j + 6 == k {
                assert(s[j + 6] == m[0]);
                assert(lower_char(m[0]) == 'u');
            } else {
                let x = j + 5 - k;
                assert(0 <= x < 5);
                assert(s[j + 5] == m[x]);
                assert(lower_ascii(m)[x] == lower_char(m[x]));
            }
            assert(false);
        }
    }
    lemma_find_some(low, MARKER@, k);
    let after = s.skip(k + 9);
    assert(after =~= t + rest);
    assert(ticket_ends()[0] == ' ' && ticket_ends()[1] == ',' && ticket_ends()[2] == ';'
        && ticket_ends()[3] == '&' && ticket_ends()[4] == '"' && ticket_ends()[5] == '\'');
    assert forall|j: int| 0 <= j < t.len() implies !ticket_ends().contains(#[trigger] after[j]) by {
        assert(after[j] == t[j]);
        if ticket_ends().contains(after[j]) {
            let x = choose|x: int| 0 <= x < 6 && ticket_ends()[x] == after[j];
            assert(0 <= x < 6);
            assert(x == 0 || x == 1 || x == 2 || x == 3 || x == 4 || x == 5);
            assert(is_space(' '));
            assert(false);
        }
    }
    if rest.len() > 0 {
        assert(after[t.len() as int] == rest[0]);
    }
    lemma_cut_is(after, ticket_ends(), t.len() as int);
    assert(after.take(t.len() as int) =~= t);
    lemma_trim_nothing(t);
}

/// A ticket is found in a query under each of its names, in letters of either case, and
/// under no other.
pub proof fn law_names_of_a_ticket(k: Seq<char>, v: Seq<char>)
    requires
        is_ascii_chars(k),
        k.len() > 0,
        forall|i: int| 0 <= i < k.len() ==> #[trigger] k[i] != '=' && !is_space(k[i]),
        v.len() > 0,
        !is_space(v[0]) && !is_space(v.last()),
    ensures
        lower_ascii(k) == "ticket"@ || lower_ascii(k) == "token"@ || lower_ascii(k) == "t"@
            ==> paired_ticket(k + seq!['='] + v) == Some(v),
        !(lower_ascii(k) == "ticket"@ || lower_ascii(k) == "token"@ || lower_ascii(k) == "t"@)
            ==> paired_ticket(k + seq!['='] + v) is None,
{
    law_parted_at_the_first(k, '=', v);
    lemma_trim_nothing(k);
    lemma_trim_nothing(v);
}

/// An address gives the ticket of its query, though others stand before it or after it.
pub proof fn law_address_gives_its_ticket(
    path: Seq<char>,
    other: Seq<char>,
    k: Seq<char>,
    t: Seq<char>,
    more: Seq<char>,
)
    requires
        forall|i: int| 0 <= i < path.len() ==> !is_space(#[trigger] path[i]) && path[i] != '?',
        forall|i: int|
            0 <= i < other.len() ==> !is_space(#[trigger] other[i]) && other[i] != '&' && other[i]
                != '=',
        is_ascii_chars(k),
        forall|i: int|
            0 <= i < k.len() ==> !is_space(#[trigger] k[i]) && k[i] != '=' && k[i] != '&',
        lower_ascii(k) == "ticket"@ || lower_ascii(k) == "token"@ || lower_ascii(k) == "t"@,
        t.len() > 0,
        forall|i: int| 0 <= i < t.len() ==> !is_space(#[trigger] t[i]) && t[i] != '&',
        forall|i: int| 0 <= i < more.len() ==> !is_space(#[trigger] more[i]),
    ensures
        ticket_in(path + seq!['?'] + (k + seq!['='] + t)) == Some(t),
        ticket_in(
            path + seq!['?'] + (other + seq!['&'] + ((k + seq!['='] + t) + seq!['&'] + more)),
        ) == Some(t),
{
    reveal_strlit("ticket");
    reveal_strlit("token");
    reveal_strlit("t");
    assert(k.len() > 0) by {
        assert(lower_ascii(k).len() == k.len());
    }
    law_names_of_a_ticket(k, t);
    let pair = k + seq!['='] + t;
    let amp = seq!['&'];
    assert(amp[0] == '&');
    assert(amp.contains('&'));
    assert forall|i: int| 0 <= i < pair.len() implies !amp.contains(#[trigger] pair[i])
        && !is_space(pair[i]) by {
        if i < k.len() {
            assert(pair[i] == k[i]);
        } else if i > k.len() {
            assert(pair[i] == t[i - k.len() - 1]);
        }
    }
    law_split_at_each_separator(pair, '&', more, amp);
    lemma_queried(path, pair);
    let whole = seq![pair];
    assert(whole[0] == pair);
    assert(ticket_from(whole, 0) == Some(t));
    let tail = pair + amp + more;
    let q = other + amp + tail;
    assert forall|i: int| 0 <= i < other.len() implies !amp.contains(#[trigger] other[i]) by {}
    law_split_at_each_separator(other, '&', tail, amp);
    assert forall|i: int| 0 <= i < q.len() implies !is_space(#[trigger] q[i]) by {
        if i < other.len() {
            assert(q[i] == other[i]);
        } else if i > other.len() {
            let x = i - other.len() - 1;
            assert(q[i] == tail[x]);
            if x < pair.len() {
                assert(tail[x] == pair[x]);
            } else if x > pair.len() {
                assert(tail[x] == more[x - pair.len() - 1]);
            }
        }
    }
    lemma_queried(path, q);
    let all = pieces(q, amp);
    assert(all[0] == other);
    assert(all[1] == pair);
    law_parted_at_the_first(other, '=', seq![]);
    assert(paired_ticket(other) is None);
    assert(ticket_from(all, 1) == Some(t));
    assert(ticket_from(all, 0) == Some(t));
}

proof fn lemma_queried(path: Seq<char>, q: Seq<char>)
    requires
        forall|i: int| 0 <= i < path.len() ==> !is_space(#[trigger] path[i]) && path[i] != '?',
        forall|i: int| 0 <= i < q.len() ==> !is_space(#[trigger] q[i]),
    ensures
        ticket_from(pieces(q, seq!['&']), 0) is Some ==> ticket_in(path + seq!['?'] + q)
            == ticket_from(pieces(q, seq!['&']), 0),
{
    let s = path + seq!['?'] + q;
    assert forall|i: int| 0 <= i < s.len() implies !is_space(#[trigger] s[i]) by {
        if i < path.len() {
            assert(s[i] == path[i]);
        } else if i > path.len() {
            assert(s[i] == q[i - path.len() - 1]);
        }
    }
    lemma_trim_nothing(s);
    lemma_no_mark_without_a_space(s);
    law_parted_at_the_first(path, '?', q);
}

proof fn lemma_last_word(s: Seq<char>, k: int, end: int)
    requires
        0 <= k <= end <= s.len(),
        forall|i: int| k <= i < end ==> #[trigger] s[i] != ' ',
        k > 0 ==> s[k - 1] == ' ',
    ensures
        last_word(s, end) == k,
    decreases end - k,
{
    if end > k {
        assert(s[end - 1] != ' ');
        lemma_last_word(s, k, end - 1);
    }
}

/// Of a request line the version of the protocol at its end is left out, and nothing
/// else.
pub proof fn law_protocol_is_left_out(s: Seq<char>, w: Seq<char>)
    requires
        forall|i: int| 0 <= i < w.len() ==> #[trigger] w[i] != ' ',
    ensures
        begins(w, "HTTP/"@) ==> without_protocol(s + seq![' '] + w) == s,
        !begins(w, "HTTP/"@) ==> without_protocol(s + seq![' '] + w) == s + seq![' '] + w,
        without_protocol(w) == w,
{
    let line = s + seq![' '] + w;
    let k = s.len() as int + 1;
    assert forall|i: int| k <= i < line.len() implies #[trigger] line[i] != ' ' by {
        assert(line[i] == w[i - k]);
    }
    assert(line[k - 1] == ' ');
    lemma_last_word(line, k, line.len() as int);
    assert(line.skip(k) =~= w);
    assert(line.take(k - 1) =~= s);
    lemma_last_word(w, 0, w.len() as int);
}

/// A redirect is searched in its first line alone; without a line there is nothing to
/// answer.
pub proof fn law_redirect_is_its_first_line(bytes: Seq<u8>, l: Seq<char>, rest: Seq<char>)
    requires
        forall|i: int| 0 <= i < l.len() ==> #[trigger] l[i] != '\n',
        l.len() > 0 ==> l.last() != '\r',
    ensures
        utf8_lossy(bytes) == l + seq!['\r', '\n'] + rest ==> request_ticket(bytes) == Some(
            ticket_in(without_protocol(l)),
        ),
        utf8_lossy(bytes).len() == 0 ==> request_ticket(bytes) is None,
{
    law_line_by_line(l, rest);
    assert((seq![l] + lines_of(rest))[0] == l);
}

/// The function that searches what was pasted gives a bare token as it is, whatever white
/// space is round it.
pub proof fn law_extract_ticket_takes_a_bare_token(
    input: &str,
    r: Option<String>,
    a: Seq<char>,
    t: Seq<char>,
    b: Seq<char>,
)
    requires
        call_ensures(extract_ticket, (input,), r),
        input@ == a + t + b,
        byte_len(t) > 30,
        forall|i: int| 0 <= i < t.len() ==> !is_space(#[trigger] t[i]) && t[i] != '?',
        !begins(t, "http"@),
        forall|i: int| 0 <= i < a.len() ==> is_space(#[trigger] a[i]),
        forall|i: int| 0 <= i < b.len() ==> is_space(#[trigger] b[i]),
    ensures
        r matches Some(s) && s@ == t,
{
    law_bare_token_gives_itself(a, t, b);
}

/// A line that is pasted ends the sign-in where nothing comes, asks again where it is
/// blank, and is told apart by whether a ticket is in it.
pub proof fn law_pasted_line_is_told_apart(line: &str, r: Paste)
    requires
        call_ensures(read_paste, (line,), r),
    ensures
        line@.len() == 0 ==> r is Ended,
        line@.len() > 0 && trimmed(line@).len() == 0 ==> r is Blank,
        trimmed(line@).len() > 0 && ticket_in(trimmed(line@)) is None ==> r is Unrecognized,
        trimmed(line@).len() > 0 && ticket_in(trimmed(line@)) is Some ==> (r matches Paste::Ticket(t)
            && Some(t@) == ticket_in(trimmed(line@))),
{
    if line@.len() == 0 {
        let none = Seq::<char>::empty();
        law_trimmed_text(none, none, none);
        assert(none + none + none =~= line@);
    }
}

} // verus!
