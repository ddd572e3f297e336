//! The local sign-in page: it collects the player's email and password and
//! takes the ticket that the WebAuth SDK delivers. One request comes in, one
//! reply goes out, and the action says what the request was.
use vstd::prelude::*;
use vstd::slice::slice_subrange;
use vstd::utf8::{encode_utf8, is_ascii_chars};

use crate::codec::{
    decodable, from_utf8_lossy, is_decodable, json_literal, json_string, url_decoded, url_encoded,
    urldecode, urlencode, utf8_lossy,
};
use crate::text::{
    begins, byte_len, bytes_in, decimal, decimal_of, ends, find, find_text, is_space,
    law_line_by_line, law_parted_at_the_first, law_split_at_each_separator, law_text_around_another,
    law_trimmed_text, law_word_by_word, lemma_cut_is, lemma_find_occurs, lemma_find_some, lines,
    lines_of, lower_ascii, lowercase, occurs, occurs_at, opt_text, parse_usize, parsed_usize,
    parted, pieces, replace, replaced, same, same_ignoring_ascii_case, split, split_once,
    split_words, texts, to_lowercase, trim, trimmed, words,
};

verus! {

/// The loopback port of the sign-in page.
pub const PORT: u16 = 31034;

/// The name under which the browser reaches the page, so that it is same-site
/// with the SDK.
pub const HOST: &'static str = "localhost.ubisoft.com";

/// The application id that the WebAuth SDK is given.
pub const APP_ID: &'static str = "f35adcb5-1911-440c-b1c9-48fdc1701c68";

/// The genome id that the WebAuth SDK is given.
pub const GENOME_ID: &'static str = "5b36b900-65d8-47f3-93c8-86bdaa48ab50";

/// Where the WebAuth SDK is loaded from.
pub const SDK_URL: &'static str =
    "https://ubistatic2-a.ubisoft.com/uplay-connect/v3/prod/default/sdk/connectSdkPublic.js";

/// The sign-in page, with a placeholder for each value that is filled in.
pub const FORM_PAGE: &'static str = r#"<!doctype html><html><head><meta charset=utf-8>
<meta name=viewport content="width=device-width,initial-scale=1">
<title>Optima — Sign in</title><style>
:root{color-scheme:dark}
*{box-sizing:border-box}
body{font-family:system-ui,-apple-system,Segoe UI,Roboto,sans-serif;background:#15151a;color:#ececf1;
display:flex;min-height:100vh;align-items:center;justify-content:center;margin:0;padding:1rem}
.card{background:#20202a;padding:2rem;border-radius:14px;width:360px;box-shadow:0 10px 40px rgba(0,0,0,.5);border:1px solid #2e2e3a}
h1{font-size:1.25rem;margin:0 0 .4rem} p{color:#9a9aa8;font-size:.85rem;line-height:1.4;margin:0 0 1.2rem}
label{display:block;font-size:.78rem;letter-spacing:.02em;text-transform:uppercase;margin:.9rem 0 .3rem;color:#b9b9c6}
input{width:100%;padding:.6rem .7rem;border:1px solid #363644;border-radius:8px;background:#15151a;color:#ececf1;font-size:.95rem}
input:focus{outline:none;border-color:#e8622c}
button{width:100%;margin-top:1.2rem;padding:.7rem;border:0;border-radius:8px;background:#e8622c;color:#fff;
font-weight:600;font-size:.95rem;cursor:pointer}
button:hover{background:#f0723c} button:disabled{opacity:.5;cursor:default}
button.alt{background:#2e2e3a;color:#ececf1} button.alt:hover{background:#3a3a48}
.note{margin-top:1rem;font-size:.72rem;color:#6f6f80;text-align:center}
#log{margin-top:1rem;background:#0e0e12;border:1px solid #2a2a34;border-radius:8px;padding:.6rem .7rem;
font:12px/1.45 ui-monospace,Menlo,Consolas,monospace;color:#8fbf8f;white-space:pre-wrap;max-height:180px;overflow:auto}
details{margin-top:1rem} summary{cursor:pointer;font-size:.78rem;color:#8a8a98}
textarea{width:100%;height:64px;margin-top:.5rem;padding:.5rem;border:1px solid #363644;border-radius:8px;
background:#15151a;color:#ececf1;font:12px ui-monospace,monospace}
</style></head><body>
<div class=card>
<form id=stage1 onsubmit="go(event)">
<h1>Sign in to Ubisoft</h1>
<p>Optima stores your email &amp; password locally to present your account to games, then gets a session ticket from Ubisoft. Your username fills in automatically.</p>
<label for=email>Ubisoft email</label>
<input id=email name=email type=email autocomplete=username autofocus required>
<label for=password>Password</label>
<input id=password name=password type=password autocomplete=current-password required>
<button id=btn type=submit>Continue &rarr;</button>
<div class=note>Password is stored locally only — never sent anywhere but the game.</div>
</form>
<div id=stage2 style="display:none">
<h1>Authorizing…</h1>
<p>Getting your Ubisoft session ticket. If prompted, sign in — the window closes itself.</p>
<button id=signin class=alt style="display:none" onclick="popupLogin()">Sign in to Ubisoft</button>
<div id=log></div>
<details><summary>Having trouble? Paste a ticket manually</summary>
<textarea id=paste placeholder="ubi_v1 ticket…"></textarea>
<button class=alt onclick="usePaste()">Use pasted ticket</button>
</details>
</div>
</div>
<script src="__SDK_URL__"></script>
<script>
const APP_ID=__APP_ID__, GENOME_ID=__GENOME_ID__, LOGIN_URL=__LOGIN_URL__;
const NEXT='https://connect.ubisoft.com/logged-in.html?appId='+APP_ID+'&lang=en-US&genomeId='+GENOME_ID;
let sdkInst=null, delivered=false;
function log(m){var el=document.getElementById('log');if(el){el.textContent+=m+'\n';el.scrollTop=el.scrollHeight;}}
function initSdk(){
  if(!window.Connect||!window.Connect.init){log('Loading SDK…');return void setTimeout(initSdk,300);}
  log('page origin: '+location.origin);
  log('Initializing Ubisoft WebAuth SDK…');
  try{
    window.Connect.init({env:'PROD',appId:APP_ID,genomeId:GENOME_ID,lang:'en-US',
      nextUrl:NEXT,thirdPartyCookiesSupport:true,localLoginExpirationMinutes:10});
  }catch(e){log('init threw → '+e);}
  try{
    log('Connect keys: '+Object.keys(window.Connect).join(','));
    log('Connect.sdk: '+(window.Connect.sdk?('yes, '+(window.Connect.sdk.constructor&&window.Connect.sdk.constructor.name)):'MISSING'));
  }catch(e){log('inspect threw → '+e);}
  if(window.Connect.sdk&&window.Connect.sdk.subscribe){
    window.Connect.sdk.subscribe(function(sdk){if(!sdk)return;sdkInst=sdk;log('SDK ready.');attempt();});
  }else{log('⚠ Connect.sdk has no subscribe — SDK shape unexpected.');}
  // Watchdog: if the iframe never reports ready, surface the manual path.
  setTimeout(function(){
    if(!sdkInst&&!delivered){log('⚠ No "SDK ready" after 8s — iframe likely not booting. Try Sign in, or check for blocked cookies.');showLogin();}
  },8000);
}
function attempt(){
  if(delivered||!sdkInst)return;
  log('Requesting ticket…');
  try{
    sdkInst.getTicket().subscribe(function(res){
      log('getTicket → '+JSON.stringify(res));
      var t=res&&(res.ticket||(res.payload&&res.payload.ticket));
      if(t)deliver(t); else showLogin();
    },function(err){log('getTicket error → '+JSON.stringify(err));showLogin();});
  }catch(e){log('getTicket threw → '+e);showLogin();}
}
function showLogin(){var b=document.getElementById('signin');if(b)b.style.display='block';}
function popupLogin(){
  log('Opening Ubisoft sign-in…');
  var w=window.open(LOGIN_URL,'ubilogin','width=520,height=800');
  var iv=setInterval(function(){
    if(w&&w.closed){clearInterval(iv);log('Sign-in window closed — re-checking…');setTimeout(attempt,700);}
  },700);
}
window.addEventListener('message',function(e){
  var d=e.data;
  // Diagnostic: surface any message from a ubisoft origin so we can see the
  // iframe handshake (ready / status) even without devtools.
  if(/ubisoft/.test(e.origin||'')){
    var s; try{s=typeof d==='string'?d:JSON.stringify(d);}catch(_){s='[unserializable]';}
    if(s&&s.length<300) log('msg ‹'+e.origin+'›: '+s);
  }
  if(d&&(d.topic==='ubisoftConnect@LOGGED_IN'||(d.data&&d.data.txt==='ubisoftConnect@LOGGED_IN'))){
    log('Detected sign-in — fetching ticket…');setTimeout(attempt,500);
  }
});
async function deliver(ticket){
  if(delivered)return; delivered=true;
  log('Ticket captured ('+ticket.length+' chars). Saving…');
  var r;
  try{r=await fetch('/ticket',{method:'POST',headers:{'Content-Type':'application/x-www-form-urlencoded'},
    body:new URLSearchParams({ticket:ticket}).toString()});}catch(e){log('save failed → '+e);delivered=false;return;}
  if(!r.ok){log('server rejected ticket (HTTP '+r.status+') — will retry');delivered=false;return;}
  document.getElementById('stage2').innerHTML='<h1>Signed in ✓</h1><p>Credentials + ticket captured. Return to Optima — you can close this tab.</p>';
}
async function go(e){
  e.preventDefault();
  var btn=document.getElementById('btn');btn.disabled=true;btn.textContent='Saving…';
  var email=document.getElementById('email').value.trim();
  var password=document.getElementById('password').value;
  try{await fetch('/profile',{method:'POST',headers:{'Content-Type':'application/x-www-form-urlencoded'},
    body:new URLSearchParams({email:email,password:password}).toString()});}catch(_){}
  document.getElementById('stage1').style.display='none';
  document.getElementById('stage2').style.display='block';
  initSdk();
}
function usePaste(){
  var t=document.getElementById('paste').value.trim();
  if(t.length>=40)deliver(t); else log('Pasted value too short to be a ticket.');
}
</script></body></html>"#;

/// The page that carries a ticket from the fragment of its URL to the query.
pub const BOUNCE_PAGE: &'static str = r#"<html><body><script>
            if (location.hash && location.hash.length > 1) {
              location.replace('/back?' + location.hash.substring(1));
            } else { document.write('<h2>Waiting for Ubisoft… complete sign-in in this tab.</h2>'); }
            </script></body></html>"#;

/// The page that ends the sign-in.
pub const SIGNED_IN_PAGE: &'static str =
    "<h2>Signed in — return to Optima. You can close this tab.</h2>";

/// The number of bytes that a request may have before reading stops.
pub const REQUEST_LIMIT: usize = 1_048_576;

/// The number of bytes that a ticket has at least.
pub const TICKET_LEN: usize = 40;

/// What a request turned out to be.
#[derive(Debug)]
pub enum Action {
    /// A page was served; listening goes on.
    Served,
    /// The form delivered the player's email and password.
    Profile { email: String, password: String },
    /// A ticket was delivered.
    Ticket(String),
}

/// The answer to a request.
#[derive(Debug)]
pub struct Reply {
    pub status: String,
    pub content_type: String,
    pub body: String,
}

/// The meaning of an action.
pub enum Meaning {
    Served,
    Profile { email: Seq<char>, password: Seq<char> },
    Ticket(Seq<char>),
}

impl View for Action {
    type V = Meaning;

    open spec fn view(&self) -> Meaning {
        match *self {
            Action::Served => Meaning::Served,
            Action::Profile { email, password } => Meaning::Profile {
                email: email@,
                password: password@,
            },
            Action::Ticket(t) => Meaning::Ticket(t@),
        }
    }
}

/// Status, content type and body of an answer.
pub struct Answer {
    pub status: Seq<char>,
    pub content_type: Seq<char>,
    pub body: Seq<char>,
}

impl View for Reply {
    type V = Answer;

    open spec fn view(&self) -> Answer {
        Answer {
            status: self.status@,
            content_type: self.content_type@,
            body: self.body@,
        }
    }
}

// ---------------------------------------------------------------------------
// Reading a request
// ---------------------------------------------------------------------------

/// The first position of `needle` in `hay`.
pub fn find_subslice(hay: &[u8], needle: &[u8]) -> (r: Option<usize>)
    requires
        needle.len() > 0,
    ensures
        match r {
            Some(i) => find(hay@, needle@) == Some(i as int) && i + needle.len() <= hay.len(),
            None => find(hay@, needle@) is None,
        },
{
    let mut i: usize = 0;
    while hay.len() - i >= needle.len()
        invariant
            i <= hay.len(),
            needle.len() > 0,
            forall|j: int| 0 <= j < i ==> !#[trigger] occurs_at(hay@, needle@, j),
        decreases hay.len() - i,
    {
        let mut k: usize = 0;
        while k < needle.len() && hay[i + k] == needle[k]
            invariant
                k <= needle.len(),
                i + needle.len() <= hay.len(),
                forall|j: int| 0 <= j < k ==> hay@[i + j] == needle@[j],
            decreases needle.len() - k,
        {
            k += 1;
        }
        let ghost window = hay@.subrange(i as int, i + needle.len());
        if k == needle.len() {
            proof {
                assert(window =~= needle@);
                lemma_find_some(hay@, needle@, i as int);
            }
            return Some(i);
        }
        assert(window[k as int] != needle@[k as int]);
        i += 1;
    }
    proof {
        lemma_find_occurs(hay@, needle@);
    }
    None
}

/// The value of the first line that is a `Content-Length` header; zero if there
/// is none or its value is no number.
pub open spec fn length_in(ls: Seq<Seq<char>>) -> usize
    decreases ls.len(),
{
    if ls.len() == 0 {
        0
    } else {
        match parted(ls[0], ':') {
            Some((k, v)) => if lower_ascii(trimmed(k)) == lower_ascii("content-length"@) {
                match parsed_usize(trimmed(v)) {
                    Some(n) => n,
                    None => 0,
                }
            } else {
                length_in(ls.skip(1))
            },
            None => length_in(ls.skip(1)),
        }
    }
}

/// The length of the body that a request head announces.
pub fn content_length(head: &str) -> (n: usize)
    ensures
        n == length_in(lines_of(head@)),
{
    let ls = lines(head);
    let ghost all = texts(ls@);
    let mut i: usize = 0;
    assert(all.skip(0) =~= all);
    while i < ls.len()
        invariant
            i <= ls.len(),
            all == texts(ls@),
            all == lines_of(head@),
            length_in(all) == length_in(all.skip(i as int)),
        decreases ls.len() - i,
    {
        assert(all.skip(i as int)[0] == ls@[i as int]@);
        assert(all.skip(i as int).skip(1) =~= all.skip(i + 1));
        if let Some((k, v)) = split_once(ls[i].as_str(), ':') {
            if same_ignoring_ascii_case(trim(k.as_str()).as_str(), "content-length") {
                return match parse_usize(trim(v.as_str()).as_str()) {
                    Some(n) => n,
                    None => 0,
                };
            }
        }
        i += 1;
    }
    0
}

/// The end of a request head: two line breaks.
pub open spec fn head_end() -> Seq<u8> {
    seq![13u8, 10, 13, 10]
}

/// Whether a request of which `data` has arrived is complete: the head is there
/// and the body is as long as the head, read as `head` where it ends at `end`,
/// announces.
pub open spec fn has_body(data: Seq<u8>, end: int, head: Seq<char>) -> bool {
    data.len() - (end + 4) >= length_in(lines_of(head))
}

/// Whether `have` bytes are all of the body that `head` announces.
pub fn body_complete(have: usize, head: &str) -> (r: bool)
    ensures
        r == (have >= length_in(lines_of(head@))),
{
    have >= content_length(head)
}

/// Whether reading a request stops once `data` has arrived: the request is
/// complete, or there is too much of it.
pub fn request_complete(data: &[u8]) -> (r: bool)
    ensures
        r == (data.len() > REQUEST_LIMIT || match find(data@, head_end()) {
            Some(i) => has_body(data@, i, utf8_lossy(data@.take(i))),
            None => false,
        }),
{
    let needle: [u8; 4] = [13, 10, 13, 10];
    assert(needle@ =~= head_end());
    if let Some(i) = find_subslice(data, &needle) {
        let head = slice_subrange(data, 0, i);
        assert(head@ =~= data@.take(i as int));
        if body_complete(data.len() - (i + 4), from_utf8_lossy(head).as_str()) {
            return true;
        }
    }
    data.len() > REQUEST_LIMIT
}

/// The request line.
pub open spec fn request_line(req: Seq<char>) -> Seq<char> {
    if lines_of(req).len() > 0 {
        lines_of(req)[0]
    } else {
        seq![]
    }
}

/// The method of a request.
pub open spec fn method_of(req: Seq<char>) -> Seq<char> {
    let w = words(request_line(req));
    if w.len() > 0 {
        w[0]
    } else {
        "GET"@
    }
}

/// Path and query of a request.
pub open spec fn target_of(req: Seq<char>) -> Seq<char> {
    let w = words(request_line(req));
    if w.len() > 1 {
        w[1]
    } else {
        "/"@
    }
}

/// The path of a request.
pub open spec fn path_of(req: Seq<char>) -> Seq<char> {
    pieces(target_of(req), seq!['?'])[0]
}

/// The body of a request.
pub open spec fn body_of(req: Seq<char>) -> Seq<char> {
    match find(req, "\r\n\r\n"@) {
        Some(i) => req.skip(i + 4),
        None => seq![],
    }
}

/// The body of a request: what follows the first empty line.
fn request_body(req: &str) -> (r: String)
    ensures
        r@ == body_of(req@),
{
    match find_text(req, "\r\n\r\n") {
        Some(i) => {
            proof {
                reveal_strlit("\r\n\r\n");
                assert("\r\n\r\n"@.len() == 4);
            }
            let v = crate::text::chars_of(req);
            assert(i + 4 <= v.len());
            let r = crate::text::string_of(slice_subrange(v.as_slice(), i + 4, v.len()));
            assert(r@ =~= req@.skip(i + 4));
            r
        },
        None => {
            let r = String::new();
            assert(r@ =~= seq![]);
            r
        },
    }
}

// ---------------------------------------------------------------------------
// Form fields and tickets
// ---------------------------------------------------------------------------

/// The pairs of a form.
pub open spec fn pairs_of(body: Seq<char>) -> Seq<Seq<char>> {
    pieces(body, seq!['&'])
}

/// The value in the pair `p`.
pub open spec fn value_in(p: Seq<char>) -> Seq<char> {
    match parted(p, '=') {
        Some((_, v)) => v,
        None => seq![],
    }
}

/// The pair `p` sets `key`.
pub open spec fn sets(p: Seq<char>, key: Seq<char>) -> bool {
    parted(p, '=') matches Some((k, v)) && k == key
}

/// The encoded value of the last pair that sets `key`.
pub open spec fn last_value(ps: Seq<Seq<char>>, key: Seq<char>) -> Option<Seq<char>>
    decreases ps.len(),
{
    if ps.len() == 0 {
        None
    } else if sets(ps.last(), key) {
        Some(value_in(ps.last()))
    } else {
        last_value(ps.drop_last(), key)
    }
}

/// Each value that is given to `key` can be decoded.
pub open spec fn takes(ps: Seq<Seq<char>>, key: Seq<char>) -> bool {
    forall|i: int|
        0 <= i < ps.len() && #[trigger] sets(ps[i], key) ==> is_decodable(
            value_in(ps[i]),
        )
}

/// A decoded value.
pub open spec fn decoded(v: Seq<char>) -> Seq<char> {
    utf8_lossy(url_decoded(encode_utf8(v)))
}

/// The value of a form field: the last one wins, and an absent one is empty.
pub open spec fn field_of(body: Seq<char>, key: Seq<char>) -> Seq<char> {
    match last_value(pairs_of(body), key) {
        Some(v) => decoded(v),
        None => seq![],
    }
}

/// The value of the form field `key` in `body`.
pub fn form_field(body: &str, key: &str) -> (r: String)
    requires
        takes(pairs_of(body@), key@),
    ensures
        r@ == field_of(body@, key@),
{
    let amp: [char; 1] = ['&'];
    assert(amp@ =~= seq!['&']);
    let ps = split(body, &amp);
    let ghost all = texts(ps@);
    let mut value = String::new();
    let mut i: usize = 0;
    assert(value@ =~= seq![]);
    while i < ps.len()
        invariant
            i <= ps.len(),
            all == texts(ps@),
            takes(all, key@),
            value@ == (match last_value(all.take(i as int), key@) {
                Some(v) => decoded(v),
                None => seq![],
            }),
        decreases ps.len() - i,
    {
        assert(all[i as int] == ps@[i as int]@);
        assert(all.take(i + 1).drop_last() =~= all.take(i as int));
        assert(all.take(i + 1).last() == all[i as int]);
        if let Some((k, v)) = split_once(ps[i].as_str(), '=') {
            if same(k.as_str(), key) {
                assert(sets(all[i as int], key@));
                value = urldecode(v.as_str());
            }
        }
        i += 1;
    }
    assert(all.take(i as int) =~= all);
    value
}

/// Whether `form_field` takes `body` and `key`.
fn form_takes(body: &str, key: &str) -> (r: bool)
    ensures
        r == takes(pairs_of(body@), key@),
{
    let amp: [char; 1] = ['&'];
    assert(amp@ =~= seq!['&']);
    let ps = split(body, &amp);
    let ghost all = texts(ps@);
    let mut i: usize = 0;
    while i < ps.len()
        invariant
            i <= ps.len(),
            all == texts(ps@),
            all == pairs_of(body@),
            forall|j: int|
                0 <= j < i && #[trigger] sets(all[j], key@) ==> is_decodable(
                    value_in(all[j]),
                ),
        decreases ps.len() - i,
    {
        assert(all[i as int] == ps@[i as int]@);
        if let Some((k, v)) = split_once(ps[i].as_str(), '=') {
            if same(k.as_str(), key) {
                assert(sets(all[i as int], key@));
                if !decodable(v.as_str()) {
                    return false;
                }
            }
        }
        i += 1;
    }
    true
}

/// The lower case names of the parameters that carry a ticket.
pub open spec fn is_ticket_name(k: Seq<char>) -> bool {
    ||| k == "ticket"@
    ||| k == "token"@
    ||| k == "t"@
    ||| k == "code"@
    ||| k == "id_token"@
    ||| k == "access_token"@
}

/// Whether a parameter name, in lower case, is one that carries a ticket.
pub fn names_ticket(k: &str) -> (r: bool)
    ensures
        r == is_ticket_name(k@),
{
    same(k, "ticket") || same(k, "token") || same(k, "t") || same(k, "code") || same(k, "id_token")
        || same(k, "access_token")
}

/// The pair `p` carries a ticket: its name says so and its value is long enough.
pub open spec fn carries_ticket(p: Seq<char>) -> bool {
    parted(p, '=') matches Some((k, v)) && is_ticket_name(lowercase(trimmed(k))) && byte_len(v)
        >= TICKET_LEN
}

/// The encoded value of the first pair that carries a ticket.
pub open spec fn first_ticket(ps: Seq<Seq<char>>) -> Option<Seq<char>>
    decreases ps.len(),
{
    if ps.len() == 0 {
        None
    } else if carries_ticket(ps[0]) {
        Some(value_in(ps[0]))
    } else {
        first_ticket(ps.skip(1))
    }
}

/// The encoded ticket in the query of a target.
pub open spec fn ticket_in(target: Seq<char>) -> Option<Seq<char>> {
    match parted(target, '?') {
        Some((_, q)) => first_ticket(pieces(q, seq!['&', ';'])),
        None => None,
    }
}

/// The encoded ticket in the query of `target`.
fn ticket_value(target: &str) -> (r: Option<String>)
    ensures
        opt_text(r) == ticket_in(target@),
{
    match split_once(target, '?') {
        None => None,
        Some((_, q)) => {
            let seps: [char; 2] = ['&', ';'];
            assert(seps@ =~= seq!['&', ';']);
            let ps = split(q.as_str(), &seps);
            let ghost all = texts(ps@);
            let mut i: usize = 0;
            assert(all.skip(0) =~= all);
            while i < ps.len()
                invariant
                    i <= ps.len(),
                    all == texts(ps@),
                    first_ticket(all) == first_ticket(all.skip(i as int)),
                    ticket_in(target@) == first_ticket(all),
                decreases ps.len() - i,
            {
                assert(all.skip(i as int)[0] == ps@[i as int]@);
                assert(all.skip(i as int).skip(1) =~= all.skip(i + 1));
                if let Some((k, v)) = split_once(ps[i].as_str(), '=') {
                    let name = to_lowercase(trim(k.as_str()).as_str());
                    if names_ticket(name.as_str()) && bytes_in(v.as_str()) >= TICKET_LEN {
                        return Some(v);
                    }
                }
                i += 1;
            }
            None
        },
    }
}

/// The ticket in the query of a redirect target.
pub fn extract_ticket(path_and_query: &str) -> (r: Option<String>)
    requires
        ticket_in(path_and_query@) matches Some(v) ==> is_decodable(v),
    ensures
        opt_text(r) == (match ticket_in(path_and_query@) {
            Some(v) => Some(decoded(v)),
            None => None,
        }),
{
    match ticket_value(path_and_query) {
        Some(v) => Some(urldecode(v.as_str())),
        None => None,
    }
}

// ---------------------------------------------------------------------------
// Answering a request
// ---------------------------------------------------------------------------

/// The sign-in page with its values filled in.
pub open spec fn form_page(login_url: Seq<char>) -> Seq<char> {
    let p1 = replaced(FORM_PAGE@, "__APP_ID__"@, json_literal(APP_ID@));
    let p2 = replaced(p1, "__GENOME_ID__"@, json_literal(GENOME_ID@));
    let p3 = replaced(p2, "__SDK_URL__"@, SDK_URL@);
    replaced(p3, "__LOGIN_URL__"@, json_literal(login_url))
}

/// The sign-in page.
pub fn sign_in_page(login_url: &str) -> (r: String)
    ensures
        r@ == form_page(login_url@),
{
    proof {
        reveal_strlit("__APP_ID__");
        reveal_strlit("__GENOME_ID__");
        reveal_strlit("__SDK_URL__");
        reveal_strlit("__LOGIN_URL__");
    }
    let p1 = replace(FORM_PAGE, "__APP_ID__", json_string(APP_ID).as_str());
    let p2 = replace(p1.as_str(), "__GENOME_ID__", json_string(GENOME_ID).as_str());
    let p3 = replace(p2.as_str(), "__SDK_URL__", SDK_URL);
    replace(p3.as_str(), "__LOGIN_URL__", json_string(login_url).as_str())
}

/// Every encoded value that `answered` decodes can be decoded.
pub open spec fn is_answerable(req: Seq<char>) -> bool {
    let ps = pairs_of(body_of(req));
    if method_of(req) == "POST"@ && path_of(req) == "/profile"@ {
        takes(ps, "email"@) && takes(ps, "password"@)
    } else if method_of(req) == "POST"@ && path_of(req) == "/ticket"@ {
        takes(ps, "ticket"@)
    } else if path_of(req) == "/back"@ {
        ticket_in(target_of(req)) matches Some(v) ==> is_decodable(v)
    } else {
        true
    }
}

/// The answer to a request, and what the request was.
pub open spec fn answered(req: Seq<char>, login_url: Seq<char>) -> (Answer, Meaning) {
    let body = body_of(req);
    let html = "text/html; charset=utf-8"@;
    let plain = "text/plain"@;
    if method_of(req) == "POST"@ && path_of(req) == "/profile"@ {
        (
            Answer { status: "200 OK"@, content_type: plain, body: "ok"@ },
            Meaning::Profile {
                email: field_of(body, "email"@),
                password: field_of(body, "password"@),
            },
        )
    } else if method_of(req) == "POST"@ && path_of(req) == "/ticket"@ {
        let t = trimmed(field_of(body, "ticket"@));
        if byte_len(t) >= TICKET_LEN {
            (
                Answer { status: "200 OK"@, content_type: plain, body: "ok"@ },
                Meaning::Ticket(t),
            )
        } else {
            (
                Answer { status: "400 Bad Request"@, content_type: plain, body: "no ticket"@ },
                Meaning::Served,
            )
        }
    } else if path_of(req) == "/back"@ {
        match ticket_in(target_of(req)) {
            Some(v) => (
                Answer { status: "200 OK"@, content_type: html, body: SIGNED_IN_PAGE@ },
                Meaning::Ticket(decoded(v)),
            ),
            None => (
                Answer { status: "200 OK"@, content_type: html, body: BOUNCE_PAGE@ },
                Meaning::Served,
            ),
        }
    } else {
        (
            Answer { status: "200 OK"@, content_type: html, body: form_page(login_url) },
            Meaning::Served,
        )
    }
}

fn reply(status: &str, content_type: &str, body: &str) -> (r: Reply)
    ensures
        r@ == (Answer { status: status@, content_type: content_type@, body: body@ }),
{
    Reply {
        status: status.to_owned(),
        content_type: content_type.to_owned(),
        body: body.to_owned(),
    }
}

/// Method, path-and-query and path of a request.
fn request_parts(req: &str) -> (r: (String, String, String))
    ensures
        r.0@ == method_of(req@),
        r.1@ == target_of(req@),
        r.2@ == path_of(req@),
{
    let ls = lines(req);
    let line = if ls.len() > 0 {
        ls[0].clone()
    } else {
        String::new()
    };
    assert(texts(ls@).len() == ls.len());
    assert(line@ =~= request_line(req@));
    let w = split_words(line.as_str());
    assert(texts(w@).len() == w.len());
    let method = if w.len() > 0 {
        w[0].clone()
    } else {
        "GET".to_owned()
    };
    let target = if w.len() > 1 {
        w[1].clone()
    } else {
        "/".to_owned()
    };
    let mark: [char; 1] = ['?'];
    assert(mark@ =~= seq!['?']);
    let ps = split(target.as_str(), &mark);
    assert(texts(ps@)[0] == ps@[0]@);
    let path = ps[0].clone();
    (method, target, path)
}

/// Answers the request `req`.
pub fn answer(req: &str, login_url: &str) -> (r: (Reply, Action))
    requires
        is_answerable(req@),
    ensures
        (r.0@, r.1@) == answered(req@, login_url@),
{
    let (method, target, path) = request_parts(req);
    let post = same(method.as_str(), "POST");
    if post && same(path.as_str(), "/profile") {
        let body = request_body(req);
        let email = form_field(body.as_str(), "email");
        let password = form_field(body.as_str(), "password");
        return (reply("200 OK", "text/plain", "ok"), Action::Profile { email, password });
    }
    if post && same(path.as_str(), "/ticket") {
        let body = request_body(req);
        let ticket = trim(form_field(body.as_str(), "ticket").as_str());
        if bytes_in(ticket.as_str()) >= TICKET_LEN {
            return (reply("200 OK", "text/plain", "ok"), Action::Ticket(ticket));
        }
        return (reply("400 Bad Request", "text/plain", "no ticket"), Action::Served);
    }
    if same(path.as_str(), "/back") {
        return match extract_ticket(target.as_str()) {
            Some(t) => (
                reply("200 OK", "text/html; charset=utf-8", SIGNED_IN_PAGE),
                Action::Ticket(t),
            ),
            None => (reply("200 OK", "text/html; charset=utf-8", BOUNCE_PAGE), Action::Served),
        };
    }
    (
        reply("200 OK", "text/html; charset=utf-8", sign_in_page(login_url).as_str()),
        Action::Served,
    )
}

/// What the log says of a posted ticket that is too short to be one.
pub open spec fn short_ticket_words(req: Seq<char>) -> Option<Seq<char>> {
    let t = trimmed(field_of(body_of(req), "ticket"@));
    if method_of(req) == "POST"@ && path_of(req) == "/ticket"@ && takes(
        pairs_of(body_of(req)),
        "ticket"@,
    ) && byte_len(t) < TICKET_LEN {
        Some(
            "[login] /ticket POST but body had no usable ticket (len="@ + decimal(byte_len(t))
                + ")"@,
        )
    } else {
        None
    }
}

/// What the log says of a posted ticket that is too short to be one.
pub fn short_ticket_text(req: &str) -> (r: Option<String>)
    ensures
        opt_text(r) == short_ticket_words(req@),
{
    let (method, _, path) = request_parts(req);
    if !same(method.as_str(), "POST") || !same(path.as_str(), "/ticket") {
        return None;
    }
    let body = request_body(req);
    if !form_takes(body.as_str(), "ticket") {
        return None;
    }
    let ticket = trim(form_field(body.as_str(), "ticket").as_str());
    let n = bytes_in(ticket.as_str());
    if n >= TICKET_LEN {
        return None;
    }
    let mut r = "[login] /ticket POST but body had no usable ticket (len=".to_owned();
    r.append(decimal_of(n as u64).as_str());
    r.append(")");
    Some(r)
}

/// Whether `answer` takes `req`.
pub fn answerable(req: &str) -> (r: bool)
    ensures
        r == is_answerable(req@),
{
    let (method, target, path) = request_parts(req);
    let post = same(method.as_str(), "POST");
    if post && same(path.as_str(), "/profile") {
        let body = request_body(req);
        form_takes(body.as_str(), "email") && form_takes(body.as_str(), "password")
    } else if post && same(path.as_str(), "/ticket") {
        let body = request_body(req);
        form_takes(body.as_str(), "ticket")
    } else if same(path.as_str(), "/back") {
        match ticket_value(target.as_str()) {
            Some(v) => decodable(v.as_str()),
            None => true,
        }
    } else {
        true
    }
}

/// Answers the request that arrived as `data`. A request without a single byte
/// gets no answer.
pub fn handle(data: &[u8], login_url: &str) -> (r: (Option<Reply>, Action))
    requires
        data.len() > 0 ==> is_answerable(utf8_lossy(data@)),
    ensures
        data.len() == 0 ==> r.0 is None && r.1 is Served,
        data.len() > 0 ==> r.0 is Some && (r.0->0@, r.1@) == answered(
            utf8_lossy(data@),
            login_url@,
        ),
{
    if data.len() == 0 {
        return (None, Action::Served);
    }
    let req = from_utf8_lossy(data);
    let (reply, action) = answer(req.as_str(), login_url);
    (Some(reply), action)
}

/// `handle` for data of which nothing is known: there is no result where a value
/// cannot be decoded.
pub fn try_handle(data: &[u8], login_url: &str) -> (r: Option<(Option<Reply>, Action)>)
    ensures
        r is None <==> data.len() > 0 && !is_answerable(utf8_lossy(data@)),
        data.len() == 0 ==> r matches Some((None, Action::Served)),
        data.len() > 0 ==> (r matches Some((reply, action)) ==> reply is Some && (
            reply->0@,
            action@,
        ) == answered(utf8_lossy(data@), login_url@)),
{
    if data.len() > 0 {
        let req = from_utf8_lossy(data);
        if !answerable(req.as_str()) {
            return None;
        }
    }
    Some(handle(data, login_url))
}

/// The text of a response on the wire.
pub open spec fn response_text(a: Answer) -> Seq<char> {
    "HTTP/1.1 "@ + a.status + "\r\nContent-Type: "@ + a.content_type + "\r\nContent-Length: "@
        + decimal(byte_len(a.body)) + "\r\nConnection: close\r\n\r\n"@ + a.body
}

impl Reply {
    /// The response as it is sent.
    pub fn wire_text(&self) -> (r: String)
        ensures
            r@ == response_text(self@),
    {
        let mut r = "HTTP/1.1 ".to_owned();
        r.append(self.status.as_str());
        r.append("\r\nContent-Type: ");
        r.append(self.content_type.as_str());
        r.append("\r\nContent-Length: ");
        r.append(decimal_of(bytes_in(self.body.as_str()) as u64).as_str());
        r.append("\r\nConnection: close\r\n\r\n");
        r.append(self.body.as_str());
        r
    }
}

// ---------------------------------------------------------------------------
// Addresses
// ---------------------------------------------------------------------------

/// The page that hands a finished sign-in to the SDK.
pub open spec fn logged_in_url() -> Seq<char> {
    "https://connect.ubisoft.com/logged-in.html?appId="@ + APP_ID@ + "&lang=en-US&genomeId="@
        + GENOME_ID@
}

/// The Ubisoft sign-in that the popup opens.
pub fn login_url() -> (r: String)
    ensures
        r@ == "https://connect.ubisoft.com/login?appId="@ + APP_ID@ + "&genomeId="@ + GENOME_ID@
            + "&lang=en-US&nextUrl="@ + url_encoded(encode_utf8(logged_in_url())),
{
    let mut next = "https://connect.ubisoft.com/logged-in.html?appId=".to_owned();
    next.append(APP_ID);
    next.append("&lang=en-US&genomeId=");
    next.append(GENOME_ID);
    let mut r = "https://connect.ubisoft.com/login?appId=".to_owned();
    r.append(APP_ID);
    r.append("&genomeId=");
    r.append(GENOME_ID);
    r.append("&lang=en-US&nextUrl=");
    r.append(urlencode(next.as_str()).as_str());
    r
}

/// The address of the sign-in page.
pub fn start_url() -> (r: String)
    ensures
        r@ == "https://"@ + HOST@ + ":"@ + decimal(PORT as nat) + "/"@,
{
    let mut r = "https://".to_owned();
    r.append(HOST);
    r.append(":");
    r.append(decimal_of(PORT as u64).as_str());
    r.append("/");
    r
}

// ---------------------------------------------------------------------------
// What the sign-in promises
// ---------------------------------------------------------------------------

/// A posted ticket is only ever taken with at least forty bytes and without white
/// space around it; a shorter one is refused.
pub proof fn law_posted_ticket_is_long(req: Seq<char>, login_url: Seq<char>)
    requires
        method_of(req) == "POST"@,
        path_of(req) == "/ticket"@,
    ensures
        answered(req, login_url).1 matches Meaning::Ticket(t) ==> byte_len(t) >= 40 && t
            == trimmed(field_of(body_of(req), "ticket"@)),
        !(answered(req, login_url).1 is Ticket) ==> answered(req, login_url).1 is Served
            && answered(req, login_url).0.status == "400 Bad Request"@,
{
    reveal_strlit("/ticket");
    reveal_strlit("/profile");
    assert("/ticket"@.len() != "/profile"@.len());
}

/// A name that can be the key of a form field as it is.
pub open spec fn is_plain_key(k: Seq<char>) -> bool {
    !k.contains('&') && !k.contains('=')
}

/// A form pair with a percent-encoded value.
pub open spec fn form_pair(key: Seq<char>, value: Seq<char>) -> Seq<char> {
    key + seq!['='] + url_encoded(encode_utf8(value))
}

proof fn lemma_form_pair(key: Seq<char>, value: Seq<char>)
    requires
        is_plain_key(key),
    ensures
        parted(form_pair(key, value), '=') == Some((key, url_encoded(encode_utf8(value)))),
        sets(form_pair(key, value), key),
        is_decodable(url_encoded(encode_utf8(value))),
        decoded(url_encoded(encode_utf8(value))) == value,
        !form_pair(key, value).contains('&'),
{
    let e = url_encoded(encode_utf8(value));
    let p = form_pair(key, value);
    crate::codec::law_urldecode_undoes_urlencode(value);
    crate::codec::lemma_url_encoded_ascii(encode_utf8(value));
    let eq = seq!['='];
    assert(eq[0] == '=');
    assert forall|j: int| 0 <= j < key.len() implies !eq.contains(#[trigger] p[j]) by {
        assert(p[j] == key[j]);
        assert(key.contains(key[j]));
    }
    assert(eq.contains(p[key.len() as int]));
    lemma_cut_is(p, eq, key.len() as int);
    assert(p.take(key.len() as int) =~= key);
    assert(p.skip(key.len() as int + 1) =~= e);
    assert forall|j: int| 0 <= j < p.len() implies #[trigger] p[j] != '&' by {
        if j < key.len() {
            assert(p[j] == key[j]);
            assert(key.contains(key[j]));
        } else if j > key.len() {
            assert(p[j] == e[j - key.len() - 1]);
            assert(seq!['&', '=', '?', ';', ' '][0] == '&');
        }
    }
}

proof fn lemma_pairs_single(p: Seq<char>)
    requires
        !p.contains('&'),
    ensures
        pairs_of(p) == seq![p],
{
    let amp = seq!['&'];
    assert forall|j: int| 0 <= j < p.len() implies !amp.contains(#[trigger] p[j]) by {
        assert(p.contains(p[j]));
    }
    lemma_cut_is(p, amp, p.len() as int);
}

proof fn lemma_pairs_two(p: Seq<char>, q: Seq<char>)
    requires
        !p.contains('&'),
        !q.contains('&'),
    ensures
        pairs_of(p + seq!['&'] + q) == seq![p, q],
{
    let amp = seq!['&'];
    let s = p + seq!['&'] + q;
    assert(amp[0] == '&');
    assert forall|j: int| 0 <= j < p.len() implies !amp.contains(#[trigger] s[j]) by {
        assert(s[j] == p[j]);
        assert(p.contains(p[j]));
    }
    assert(amp.contains(s[p.len() as int]));
    lemma_cut_is(s, amp, p.len() as int);
    assert(s.take(p.len() as int) =~= p);
    assert(s.skip(p.len() as int + 1) =~= q);
    lemma_pairs_single(q);
    assert(pairs_of(s) =~= seq![p, q]);
}

/// What a form delivers is what was entered: a percent-encoded field is taken,
/// and its value is the text that was encoded.
pub proof fn law_form_field_comes_back(key: Seq<char>, value: Seq<char>)
    requires
        is_plain_key(key),
    ensures
        takes(pairs_of(form_pair(key, value)), key),
        field_of(form_pair(key, value), key) == value,
{
    let p = form_pair(key, value);
    lemma_form_pair(key, value);
    lemma_pairs_single(p);
    assert(seq![p].last() == p);
}

/// A form with two fields of different names delivers both.
pub proof fn law_form_fields_come_back(
    key1: Seq<char>,
    value1: Seq<char>,
    key2: Seq<char>,
    value2: Seq<char>,
)
    requires
        is_plain_key(key1),
        is_plain_key(key2),
        key1 != key2,
    ensures
        ({
            let body = form_pair(key1, value1) + seq!['&'] + form_pair(key2, value2);
            &&& takes(pairs_of(body), key1)
            &&& takes(pairs_of(body), key2)
            &&& field_of(body, key1) == value1
            &&& field_of(body, key2) == value2
        }),
{
    let p = form_pair(key1, value1);
    let q = form_pair(key2, value2);
    lemma_form_pair(key1, value1);
    lemma_form_pair(key2, value2);
    lemma_pairs_two(p, q);
    let ps = seq![p, q];
    assert(ps.last() == q);
    assert(ps.drop_last() =~= seq![p]);
    assert(seq![p].last() == p);
    reveal_with_fuel(last_value, 3);
}

/// A request line names the method and the target, parted by a space, and the path is
/// the target up to its query.
pub proof fn law_request_line_is_read(
    method: Seq<char>,
    target: Seq<char>,
    version: Seq<char>,
    rest: Seq<char>,
    path: Seq<char>,
    query: Seq<char>,
)
    requires
        method.len() > 0,
        target.len() > 0,
        version.len() > 0,
        forall|i: int| 0 <= i < method.len() ==> !is_space(#[trigger] method[i]),
        forall|i: int| 0 <= i < target.len() ==> !is_space(#[trigger] target[i]),
        forall|i: int| 0 <= i < version.len() ==> !is_space(#[trigger] version[i]),
        !path.contains('?'),
    ensures
        method_of(
            method + seq![' '] + target + seq![' '] + version + seq!['\r', '\n'] + rest,
        ) == method,
        target_of(
            method + seq![' '] + target + seq![' '] + version + seq!['\r', '\n'] + rest,
        ) == target,
        target == path + seq!['?'] + query || target == path ==> path_of(
            method + seq![' '] + target + seq![' '] + version + seq!['\r', '\n'] + rest,
        ) == path,
{
    let line = method + seq![' '] + target + seq![' '] + version;
    let req = line + seq!['\r', '\n'] + rest;
    assert forall|i: int| 0 <= i < line.len() implies #[trigger] line[i] != '\n' by {
        let a = method.len() as int;
        let b = a + 1 + target.len();
        if i < a {
            assert(line[i] == method[i]);
        } else if i == a || i == b {
            assert(line[i] == ' ');
        } else if i < b {
            assert(line[i] == target[i - a - 1]);
        } else {
            assert(line[i] == version[i - b - 1]);
        }
        assert(is_space('\n'));
    }
    assert(line.last() == version.last());
    assert(is_space('\r'));
    law_line_by_line(line, rest);
    assert((seq![line] + lines_of(rest))[0] == line);
    assert(request_line(req) == line);
    let none = Seq::<char>::empty();
    let more = seq![' '] + target + (seq![' '] + version);
    assert(none + method + more =~= line);
    assert(more[0] == ' ');
    law_word_by_word(none, method, more);
    law_word_by_word(seq![' '], target, seq![' '] + version);
    let w = words(line);
    assert(w =~= seq![method] + (seq![target] + words(seq![' '] + version)));
    assert(w[0] == method);
    assert(w[1] == target);
    let seps = seq!['?'];
    assert(seps[0] == '?');
    assert(seps.contains('?'));
    assert forall|i: int| 0 <= i < path.len() implies !seps.contains(#[trigger] path[i]) by {
        assert(path.contains(path[i]));
    }
    law_split_at_each_separator(path, '?', query, seps);
    assert((seq![path] + pieces(query, seps))[0] == path);
    assert(seq![path][0] == path);
}

/// The body of a request is all that stands behind the first empty line, and nothing
/// where there is none.
pub proof fn law_body_is_behind_the_empty_line(head: Seq<char>, body: Seq<char>)
    ensures
        (forall|j: int|
            0 <= j < head.len() ==> !#[trigger] occurs_at(
                head + "\r\n\r\n"@ + body,
                "\r\n\r\n"@,
                j,
            )) ==> body_of(head + "\r\n\r\n"@ + body) == body,
        !occurs(head, "\r\n\r\n"@) ==> body_of(head).len() == 0,
{
    reveal_strlit("\r\n\r\n");
    let s = head + "\r\n\r\n"@ + body;
    if forall|j: int| 0 <= j < head.len() ==> !#[trigger] occurs_at(s, "\r\n\r\n"@, j) {
        assert(s.subrange(head.len() as int, head.len() as int + 4) =~= "\r\n\r\n"@);
        assert(occurs_at(s, "\r\n\r\n"@, head.len() as int));
        lemma_find_some(s, "\r\n\r\n"@, head.len() as int);
        assert(s.skip(head.len() as int + 4) =~= body);
    }
    lemma_find_occurs(head, "\r\n\r\n"@);
}

/// The length of a body is what the first header of its name says, in letters of either
/// case and with white space round both; without one, or where it is no number, it is
/// zero.
pub proof fn law_first_length_counts(ls: Seq<Seq<char>>, i: int, k: Seq<char>, v: Seq<char>)
    requires
        0 <= i <= ls.len(),
        forall|j: int|
            0 <= j < i ==> (parted(#[trigger] ls[j], ':') matches Some((name, _)) ==> lower_ascii(
                trimmed(name),
            ) != "content-length"@),
        i < ls.len() ==> ls[i] == k + seq![':'] + v && !k.contains(':') && lower_ascii(trimmed(k))
            == "content-length"@,
    ensures
        i < ls.len() ==> length_in(ls) == (match parsed_usize(trimmed(v)) {
            Some(n) => n,
            None => 0,
        }),
        i == ls.len() ==> length_in(ls) == 0,
    decreases i,
{
    reveal_strlit("content-length");
    assert(lower_ascii("content-length"@) =~= "content-length"@);
    if i == 0 {
        if ls.len() > 0 {
            assert forall|j: int| 0 <= j < k.len() implies #[trigger] k[j] != ':' by {
                assert(k.contains(k[j]));
            }
            law_parted_at_the_first(k, ':', v);
        }
    } else {
        let rest = ls.skip(1);
        assert(parted(ls[0], ':') matches Some((name, _)) ==> lower_ascii(trimmed(name))
            != "content-length"@);
        assert forall|j: int| 0 <= j < i - 1 implies (parted(#[trigger] rest[j], ':') matches Some(
            (name, _),
        ) ==> lower_ascii(trimmed(name)) != "content-length"@) by {
            assert(rest[j] == ls[j + 1]);
        }
        if i < ls.len() {
            assert(rest[i - 1] == ls[i]);
        }
        law_first_length_counts(rest, i - 1, k, v);
    }
}

/// A request has come whole when behind the empty line there is as much as its length
/// says.
pub proof fn law_request_has_come_whole(data: Seq<u8>, end: int, head: Seq<char>)
    ensures
        has_body(data, end, head) <==> data.len() >= end + 4 + length_in(lines_of(head)),
        head_end() == "\r\n\r\n"@.map_values(|c: char| c as u8),
{
    reveal_strlit("\r\n\r\n");
    assert(head_end() =~= "\r\n\r\n"@.map_values(|c: char| c as u8));
}

/// Of several values for a field the last counts; pairs for other fields say nothing.
pub proof fn law_last_value_counts(
    ps: Seq<Seq<char>>,
    key: Seq<char>,
    k: Seq<char>,
    v: Seq<char>,
)
    requires
        !k.contains('='),
    ensures
        k == key ==> last_value(ps.push(k + seq!['='] + v), key) == Some(v),
        k != key ==> last_value(ps.push(k + seq!['='] + v), key) == last_value(ps, key),
        last_value(ps.push(k), key) == last_value(ps, key),
        last_value(Seq::<Seq<char>>::empty(), key) is None,
{
    assert forall|j: int| 0 <= j < k.len() implies #[trigger] k[j] != '=' by {
        assert(k.contains(k[j]));
    }
    law_parted_at_the_first(k, '=', v);
    let p = k + seq!['='] + v;
    assert(ps.push(p).last() == p);
    assert(ps.push(p).drop_last() =~= ps);
    assert(ps.push(k).last() == k);
    assert(ps.push(k).drop_last() =~= ps);
}

/// A ticket comes under one of six names, and under no other.
pub proof fn law_names_of_a_ticket(k: Seq<char>)
    ensures
        is_ticket_name(k) <==> seq![
            "ticket"@,
            "token"@,
            "t"@,
            "code"@,
            "id_token"@,
            "access_token"@,
        ].contains(k),
{
    let l = seq!["ticket"@, "token"@, "t"@, "code"@, "id_token"@, "access_token"@];
    assert(l[0] == "ticket"@ && l[1] == "token"@ && l[2] == "t"@ && l[3] == "code"@ && l[4]
        == "id_token"@ && l[5] == "access_token"@);
    if l.contains(k) {
        let i = choose|i: int| 0 <= i < 6 && l[i] == k;
        assert(i == 0 || i == 1 || i == 2 || i == 3 || i == 4 || i == 5);
    }
}

/// An address that was led back to gives the first value of its query that has the name of
/// a ticket and at least forty bytes, whatever stands before it or after it.
pub proof fn law_address_gives_its_ticket(
    path: Seq<char>,
    other: Seq<char>,
    k: Seq<char>,
    v: Seq<char>,
    c: char,
    more: Seq<char>,
)
    requires
        !path.contains('?'),
        !other.contains('&') && !other.contains(';') && !other.contains('='),
        !k.contains('&') && !k.contains(';') && !k.contains('='),
        !v.contains('&') && !v.contains(';'),
        c == '&' || c == ';',
        is_ascii_chars(k),
        k.len() > 0 && !is_space(k[0]) && !is_space(k.last()),
        seq!["ticket"@, "token"@, "t"@, "code"@, "id_token"@, "access_token"@].contains(
            lower_ascii(k),
        ),
    ensures
        byte_len(v) >= 40 ==> ticket_in(path + seq!['?'] + (k + seq!['='] + v)) == Some(v),
        byte_len(v) >= 40 ==> ticket_in(
            path + seq!['?'] + (other + seq![c] + ((k + seq!['='] + v) + seq![c] + more)),
        ) == Some(v),
        byte_len(v) < 40 ==> ticket_in(path + seq!['?'] + (k + seq!['='] + v)) is None,
{
    let seps = seq!['&', ';'];
    assert(seps[0] == '&' && seps[1] == ';');
    assert(seps.contains(c));
    assert forall|i: int| 0 <= i < path.len() implies #[trigger] path[i] != '?' by {
        assert(path.contains(path[i]));
    }
    assert forall|i: int| 0 <= i < k.len() implies #[trigger] k[i] != '=' by {
        assert(k.contains(k[i]));
    }
    law_names_of_a_ticket(lower_ascii(k));
    law_parted_at_the_first(k, '=', v);
    let none = Seq::<char>::empty();
    law_trimmed_text(none, k, none);
    assert(none + k + none =~= k);
    let pair = k + seq!['='] + v;
    assert forall|i: int| 0 <= i < pair.len() implies !seps.contains(#[trigger] pair[i]) by {
        if i < k.len() {
            assert(pair[i] == k[i]);
            assert(k.contains(k[i]));
        } else if i > k.len() {
            assert(pair[i] == v[i - k.len() - 1]);
            assert(v.contains(v[i - k.len() - 1]));
        }
    }
    law_split_at_each_separator(pair, c, more, seps);
    law_parted_at_the_first(path, '?', pair);
    let one = seq![pair];
    assert(one[0] == pair);
    assert(one.skip(1) =~= Seq::<Seq<char>>::empty());
    reveal_with_fuel(first_ticket, 2);
    let tail = pair + seq![c] + more;
    let q = other + seq![c] + tail;
    assert forall|i: int| 0 <= i < other.len() implies !seps.contains(#[trigger] other[i])
        && other[i] != '=' by {
        assert(other.contains(other[i]));
    }
    law_split_at_each_separator(other, c, tail, seps);
    law_parted_at_the_first(path, '?', q);
    law_parted_at_the_first(other, '=', none);
    let all = pieces(q, seps);
    let rest = seq![pair] + pieces(more, seps);
    assert(all =~= seq![other] + rest);
    assert(all[0] == other);
    assert(all.skip(1) =~= rest);
    assert(rest[0] == pair);
}

/// What each request is answered: credentials and tickets that are posted are taken, a
/// ticket that is too short is refused, what leads back gives its ticket or is sent on,
/// and everything else gets the sign-in page.
pub proof fn law_each_request_has_its_answer(req: Seq<char>, login_url: Seq<char>)
    ensures
        method_of(req) == "POST"@ && path_of(req) == "/profile"@ ==> answered(req, login_url).1 == (
        Meaning::Profile {
            email: field_of(body_of(req), "email"@),
            password: field_of(body_of(req), "password"@),
        }) && answered(req, login_url).0.status == "200 OK"@,
        method_of(req) == "POST"@ && path_of(req) == "/ticket"@
            && byte_len(trimmed(field_of(body_of(req), "ticket"@))) >= 40 ==> answered(
            req,
            login_url,
        ).1 == Meaning::Ticket(trimmed(field_of(body_of(req), "ticket"@))) && answered(
            req,
            login_url,
        ).0.status == "200 OK"@,
        method_of(req) == "POST"@ && path_of(req) == "/ticket"@
            && byte_len(trimmed(field_of(body_of(req), "ticket"@))) < 40 ==> answered(
            req,
            login_url,
        ).1 is Served && answered(req, login_url).0.status == "400 Bad Request"@,
        path_of(req) == "/back"@ ==> (match ticket_in(
            target_of(req),
        ) {
            Some(v) => answered(req, login_url).1 == Meaning::Ticket(decoded(v)) && answered(
                req,
                login_url,
            ).0.body == SIGNED_IN_PAGE@,
            None => answered(req, login_url).1 is Served && answered(req, login_url).0.body
                == BOUNCE_PAGE@,
        }),
        path_of(req) != "/profile"@ && path_of(req) != "/ticket"@ && path_of(req) != "/back"@
            ==> answered(req, login_url).1 is Served && answered(req, login_url).0.body
            == form_page(login_url) && answered(req, login_url).0.status == "200 OK"@
            && is_answerable(req),
{
    reveal_strlit("/profile");
    reveal_strlit("/ticket");
    reveal_strlit("/back");
    assert("/profile"@.len() == 8 && "/ticket"@.len() == 7 && "/back"@.len() == 5);
}

/// A ticket that is posted as a form comes back as it was, whatever headers the request
/// has.
pub proof fn law_posted_ticket_is_taken(
    head: Seq<char>,
    headers: Seq<char>,
    t: Seq<char>,
    login_url: Seq<char>,
)
    requires
        byte_len(t) >= 40,
        t.len() > 0 && !is_space(t[0]) && !is_space(t.last()),
        head == "POST"@ + seq![' '] + "/ticket"@ + seq![' '] + "HTTP/1.1"@ + seq!['\r', '\n']
            + headers,
        forall|j: int|
            0 <= j < head.len() ==> !#[trigger] occurs_at(
                head + "\r\n\r\n"@ + form_pair("ticket"@, t),
                "\r\n\r\n"@,
                j,
            ),
    ensures
        is_answerable(head + "\r\n\r\n"@ + form_pair("ticket"@, t)),
        answered(head + "\r\n\r\n"@ + form_pair("ticket"@, t), login_url).1 == Meaning::Ticket(t),
{
    reveal_strlit("POST");
    reveal_strlit("/ticket");
    reveal_strlit("/profile");
    reveal_strlit("HTTP/1.1");
    reveal_strlit("ticket");
    let body = form_pair("ticket"@, t);
    let req = head + "\r\n\r\n"@ + body;
    law_body_is_behind_the_empty_line(head, body);
    let rest = headers + "\r\n\r\n"@ + body;
    assert(req =~= "POST"@ + seq![' '] + "/ticket"@ + seq![' '] + "HTTP/1.1"@ + seq!['\r', '\n']
        + rest);
    assert(!"/ticket"@.contains('?'));
    law_request_line_is_read(
        "POST"@,
        "/ticket"@,
        "HTTP/1.1"@,
        rest,
        "/ticket"@,
        Seq::empty(),
    );
    assert("/ticket"@.len() != "/profile"@.len());
    assert(is_plain_key("ticket"@));
    law_form_field_comes_back("ticket"@, t);
    let none = Seq::<char>::empty();
    law_trimmed_text(none, t, none);
    assert(none + t + none =~= t);
}

/// A reply says its status first, how long its body is in bytes, and the body last.
pub proof fn law_reply_on_the_wire(a: Answer)
    ensures
        begins(response_text(a), "HTTP/1.1 "@ + a.status),
        occurs(response_text(a), "\r\nContent-Type: "@ + a.content_type),
        occurs(response_text(a), "\r\nContent-Length: "@ + decimal(byte_len(a.body))),
        ends(response_text(a), "\r\n\r\n"@ + a.body),
{
    let n = decimal(byte_len(a.body));
    let p1 = "HTTP/1.1 "@ + a.status;
    let p2 = "\r\nContent-Type: "@ + a.content_type;
    let p3 = "\r\nContent-Length: "@ + n;
    let p4 = "\r\nConnection: close\r\n\r\n"@;
    let s = response_text(a);
    assert(s =~= p1 + (p2 + p3 + p4 + a.body));
    assert(s =~= p1 + p2 + (p3 + p4 + a.body));
    assert(s =~= (p1 + p2) + p3 + (p4 + a.body));
    law_text_around_another(p1, p1, p2 + p3 + p4 + a.body);
    law_text_around_another(p1, p2, p3 + p4 + a.body);
    law_text_around_another(p1 + p2, p3, p4 + a.body);
    reveal_strlit("\r\nConnection: close\r\n\r\n");
    reveal_strlit("\r\n\r\n");
    let end = "\r\n\r\n"@ + a.body;
    let pre = p1 + p2 + p3 + p4.take(19);
    assert(s =~= pre + end);
    law_text_around_another(pre, end, Seq::empty());
}

/// A ticket that is posted and too short is told of with its length; nothing else is.
pub proof fn law_short_ticket_is_told(req: Seq<char>)
    ensures
        method_of(req) != "POST"@ || path_of(req) != "/ticket"@ ==> short_ticket_words(req) is None,
        byte_len(trimmed(field_of(body_of(req), "ticket"@))) >= 40 ==> short_ticket_words(req)
            is None,
        method_of(req) == "POST"@ && path_of(req) == "/ticket"@ && takes(
            pairs_of(body_of(req)),
            "ticket"@,
        ) && byte_len(trimmed(field_of(body_of(req), "ticket"@))) < 40 ==> (short_ticket_words(
            req,
        ) matches Some(w) && ends(
            w,
            "(len="@ + decimal(byte_len(trimmed(field_of(body_of(req), "ticket"@)))) + ")"@,
        )),
{
    let t = trimmed(field_of(body_of(req), "ticket"@));
    if let Some(w) = short_ticket_words(req) {
        reveal_strlit("[login] /ticket POST but body had no usable ticket (len=");
        reveal_strlit("(len=");
        let a = "[login] /ticket POST but body had no usable ticket (len="@;
        let d = decimal(byte_len(t));
        let pre = a.take(a.len() - 5);
        assert(a =~= pre + "(len="@);
        let end = "(len="@ + d + ")"@;
        assert(w =~= pre + end);
        law_text_around_another(pre, end, Seq::empty());
    }
}

/// The sign-in of the account leads back to the page that tells of its success, for the
/// same application.
pub proof fn law_sign_in_leads_back(r: String)
    requires
        call_ensures(login_url, (), r),
    ensures
        begins(r@, "https://connect.ubisoft.com/login?appId="@ + APP_ID@),
        ends(
            r@,
            url_encoded(
                encode_utf8(
                    "https://connect.ubisoft.com/logged-in.html?appId="@ + APP_ID@
                        + "&lang=en-US&genomeId="@ + GENOME_ID@,
                ),
            ),
        ),
{
    let a = "https://connect.ubisoft.com/login?appId="@ + APP_ID@;
    let b = "&genomeId="@ + GENOME_ID@ + "&lang=en-US&nextUrl="@;
    let u = url_encoded(encode_utf8(logged_in_url()));
    assert(r@ =~= a + (b + u));
    law_text_around_another(a, a, b + u);
    assert(r@ =~= (a + b) + u);
    law_text_around_another(a + b, u, Seq::empty());
}

} // verus!
