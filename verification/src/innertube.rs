//! Asking YouTube's InnerTube API for a player response: the clients tried,
//! in order, and the search that goes through them and then falls back to
//! the watch page. The requests themselves are the caller's; the search
//! says what to ask next and what the answers amount to.
use crate::player::{player_verdict, spec_player_verdict, PlayerResponse};
use crate::text::{append_chars, append_str, char_from_ascii_code, chars_of, decimal, decimal_vec, string_from};
use vstd::prelude::*;

verus! {

broadcast use vstd::string::group_string_axioms;

/// The InnerTube endpoint.
pub fn innertube_url() -> (s: &'static str)
    ensures
        s@ == "https://www.youtube.com/youtubei/v1/player"@,
{
    "https://www.youtube.com/youtubei/v1/player"
}

/// The user agent of the Android client.
pub open spec fn android_ua() -> Seq<char> {
    "com.google.android.youtube/21.02.35 (Linux; U; Android 11) gzip"@
}

/// The user agent of the Android VR (Oculus) client.
pub open spec fn android_vr_ua() -> Seq<char> {
    "com.google.android.apps.youtube.vr.oculus/1.65.10 (Linux; U; Android 12L; eureka-user Build/SQ3A.220605.009.A1) gzip"@
}

/// The browser user agent of the web client.
pub open spec fn web_client_ua() -> Seq<char> {
    "Mozilla/5.0 (Windows NT 10.0; Win64; x64) AppleWebKit/537.36"@
}

/// The browser user agent for downloads found through the watch page.
pub open spec fn watch_page_ua() -> Seq<char> {
    "Mozilla/5.0 (Windows NT 10.0; Win64; x64) AppleWebKit/537.36 (KHTML, like Gecko) Chrome/131.0.0.0 Safari/537.36"@
}

/// One way of asking for a player response: the headers that name the
/// client, and what goes into the request's `context.client` object.
#[derive(Debug, Clone, Copy)]
pub struct InnerTubeClient {
    /// `X-YouTube-Client-Name`.
    pub name_id: &'static str,
    /// `X-YouTube-Client-Version`, also the context's `clientVersion`.
    pub version: &'static str,
    /// The `User-Agent` of the request and of the downloads it leads to.
    pub user_agent: &'static str,
    /// The context's `clientName`.
    pub client_name: &'static str,
    /// The context's `androidSdkVersion`, for Android clients.
    pub android_sdk: Option<u32>,
    /// The context's `userAgent`, `osName` and `osVersion`, for Android clients.
    pub os: Option<(&'static str, &'static str)>,
    /// The context's `deviceMake` and `deviceModel`.
    pub device: Option<(&'static str, &'static str)>,
    /// The context's `hl` and `gl`.
    pub locale: Option<(&'static str, &'static str)>,
    /// Sends the age-restriction bypass parameter `params: "CgIQBg=="`.
    pub age_bypass: bool,
    /// Sends `playbackContext.contentPlaybackContext.html5Preference:
    /// "HTML5_PREF_WANTS"`.
    pub wants_html5: bool,
}

/// How many clients are tried before the watch page.
pub open spec fn client_count() -> int {
    5
}

pub open spec fn opt_pair_view(o: Option<(&'static str, &'static str)>) -> Option<(Seq<char>, Seq<char>)> {
    match o {
        Some((a, b)) => Some((a@, b@)),
        None => None,
    }
}

/// The Android client: SDK 30 on Android 11.
pub open spec fn is_android(c: InnerTubeClient) -> bool {
    &&& c.name_id@ == "3"@
    &&& c.version@ == "21.02.35"@
    &&& c.user_agent@ == android_ua()
    &&& c.client_name@ == "ANDROID"@
    &&& c.android_sdk == Some(30u32)
    &&& opt_pair_view(c.os) == Some(("Android"@, "11"@))
    &&& c.device is None
    &&& c.locale is None
    &&& !c.wants_html5
}

/// The Android VR client: an Oculus Quest 3, SDK 32 on Android 12L, asking
/// for HTML5 playback.
pub open spec fn is_android_vr(c: InnerTubeClient) -> bool {
    &&& c.name_id@ == "28"@
    &&& c.version@ == "1.65.10"@
    &&& c.user_agent@ == android_vr_ua()
    &&& c.client_name@ == "ANDROID_VR"@
    &&& c.android_sdk == Some(32u32)
    &&& opt_pair_view(c.os) == Some(("Android"@, "12L"@))
    &&& opt_pair_view(c.device) == Some(("Oculus"@, "Quest 3"@))
    &&& c.locale is None
    &&& c.wants_html5
}

/// The web client, in English for the United States.
pub open spec fn is_web(c: InnerTubeClient) -> bool {
    &&& c.name_id@ == "1"@
    &&& c.version@ == "2.20241108.01.00"@
    &&& c.user_agent@ == web_client_ua()
    &&& c.client_name@ == "WEB"@
    &&& c.android_sdk is None
    &&& c.os is None
    &&& c.device is None
    &&& opt_pair_view(c.locale) == Some(("en"@, "US"@))
    &&& !c.wants_html5
    &&& !c.age_bypass
}

/// The clients, in the order they are tried: Android (plain, then with the
/// age bypass), Android VR (plain, then with the age bypass), then web.
/// Android comes first because its stream URLs download through a plain
/// HTTPS proxy.
pub fn innertube_clients() -> (r: Vec<InnerTubeClient>)
    ensures
        r@.len() == client_count(),
        is_android(r@[0]) && !r@[0].age_bypass,
        is_android(r@[1]) && r@[1].age_bypass,
        is_android_vr(r@[2]) && !r@[2].age_bypass,
        is_android_vr(r@[3]) && r@[3].age_bypass,
        is_web(r@[4]),
{
    let android = InnerTubeClient {
        name_id: "3",
        version: "21.02.35",
        user_agent: "com.google.android.youtube/21.02.35 (Linux; U; Android 11) gzip",
        client_name: "ANDROID",
        android_sdk: Some(30),
        os: Some(("Android", "11")),
        device: None,
        locale: None,
        age_bypass: false,
        wants_html5: false,
    };
    let android_vr = InnerTubeClient {
        name_id: "28",
        version: "1.65.10",
        user_agent: "com.google.android.apps.youtube.vr.oculus/1.65.10 (Linux; U; Android 12L; eureka-user Build/SQ3A.220605.009.A1) gzip",
        client_name: "ANDROID_VR",
        android_sdk: Some(32),
        os: Some(("Android", "12L")),
        device: Some(("Oculus", "Quest 3")),
        locale: None,
        age_bypass: false,
        wants_html5: true,
    };
    let web = InnerTubeClient {
        name_id: "1",
        version: "2.20241108.01.00",
        user_agent: "Mozilla/5.0 (Windows NT 10.0; Win64; x64) AppleWebKit/537.36",
        client_name: "WEB",
        android_sdk: None,
        os: None,
        device: None,
        locale: Some(("en", "US")),
        age_bypass: false,
        wants_html5: false,
    };
    let mut r: Vec<InnerTubeClient> = Vec::new();
    r.push(android);
    r.push(InnerTubeClient { age_bypass: true, ..android });
    r.push(android_vr);
    r.push(InnerTubeClient { age_bypass: true, ..android_vr });
    r.push(web);
    r
}

/// The watch page of a video.
pub fn watch_url(video_id: &str) -> (r: String)
    ensures
        r@ == "https://www.youtube.com/watch?v="@ + video_id@,
{
    let mut v = chars_of("https://www.youtube.com/watch?v=");
    append_str(&mut v, video_id);
    string_from(&v)
}

// ───────────────────────── request bodies ─────────────────────────

/// A hexadecimal digit, lower case.
pub open spec fn hex_digit(d: int) -> char {
    if d < 10 {
        (('0' as u32) + d) as char
    } else {
        (('a' as u32) + d - 10) as char
    }
}

/// A character as a JSON string holds it: `"` and `\` and the control
/// characters escaped (the usual short forms, else `\u00XX`), any other
/// character as it is.
pub open spec fn json_escape(c: char) -> Seq<char> {
    if c == '"' {
        seq!['\\', '"']
    } else if c == '\\' {
        seq!['\\', '\\']
    } else if c == '\n' {
        seq!['\\', 'n']
    } else if c == '\r' {
        seq!['\\', 'r']
    } else if c == '\t' {
        seq!['\\', 't']
    } else if (c as u32) == 8 {
        seq!['\\', 'b']
    } else if (c as u32) == 12 {
        seq!['\\', 'f']
    } else if (c as u32) < 32 {
        seq!['\\', 'u', '0', '0', hex_digit(((c as u32) / 16) as int), hex_digit(((c as u32) % 16) as int)]
    } else {
        seq![c]
    }
}

pub open spec fn json_escaped(s: Seq<char>) -> Seq<char>
    decreases s.len(),
{
    if s.len() == 0 {
        Seq::empty()
    } else {
        json_escaped(s.drop_last()) + json_escape(s.last())
    }
}

/// A text as a JSON string.
pub open spec fn json_string(s: Seq<char>) -> Seq<char> {
    "\""@ + json_escaped(s) + "\""@
}

/// A `"key":` prefix.
pub open spec fn json_key(k: Seq<char>) -> Seq<char> {
    json_string(k) + ":"@
}

pub open spec fn sdk_part(c: InnerTubeClient) -> Seq<char> {
    match c.android_sdk {
        Some(v) => json_key("androidSdkVersion"@) + decimal(v as nat) + ","@,
        None => Seq::empty(),
    }
}

pub open spec fn device_part(c: InnerTubeClient) -> Seq<char> {
    match c.device {
        Some((make, model)) => ","@ + json_key("deviceMake"@) + json_string(make@) + ","@ + json_key(
            "deviceModel"@,
        ) + json_string(model@),
        None => Seq::empty(),
    }
}

pub open spec fn locale_part(c: InnerTubeClient) -> Seq<char> {
    match c.locale {
        Some((hl, gl)) => ","@ + json_key("gl"@) + json_string(gl@) + ","@ + json_key("hl"@)
            + json_string(hl@),
        None => Seq::empty(),
    }
}

pub open spec fn os_part(c: InnerTubeClient) -> Seq<char> {
    match c.os {
        Some((name, version)) => ","@ + json_key("osName"@) + json_string(name@) + ","@ + json_key(
            "osVersion"@,
        ) + json_string(version@) + ","@ + json_key("userAgent"@) + json_string(c.user_agent@),
        None => Seq::empty(),
    }
}

/// The request's `context.client` object, its keys in sorted order as
/// `serde_json` writes a map.
pub open spec fn client_object(c: InnerTubeClient) -> Seq<char> {
    "{"@ + sdk_part(c) + json_key("clientName"@) + json_string(c.client_name@) + ","@ + json_key(
        "clientVersion"@,
    ) + json_string(c.version@) + device_part(c) + locale_part(c) + os_part(c) + "}"@
}

pub open spec fn bypass_part(c: InnerTubeClient) -> Seq<char> {
    if c.age_bypass {
        ","@ + json_key("params"@) + json_string("CgIQBg=="@)
    } else {
        Seq::empty()
    }
}

pub open spec fn html5_part(c: InnerTubeClient) -> Seq<char> {
    if c.wants_html5 {
        ","@ + json_key("playbackContext"@) + "{"@ + json_key("contentPlaybackContext"@) + "{"@
            + json_key("html5Preference"@) + json_string("HTML5_PREF_WANTS"@) + "}}"@
    } else {
        Seq::empty()
    }
}

/// The JSON body that asks a client for a video's player response, as
/// `serde_json` writes it (compact, keys sorted): the client context, the
/// age-bypass parameter and the HTML5 preference when the client sends
/// them, and the video id.
pub open spec fn spec_request_body(c: InnerTubeClient, video_id: Seq<char>) -> Seq<char> {
    "{"@ + json_key("context"@) + "{"@ + json_key("client"@) + client_object(c) + "}"@ + bypass_part(c)
        + html5_part(c) + ","@ + json_key("videoId"@) + json_string(video_id) + "}"@
}

fn hex_digit_char(d: u32) -> (c: char)
    requires
        d < 16,
    ensures
        c == hex_digit(d as int),
{
    if d < 10 {
        char_from_ascii_code(48 + d)
    } else {
        char_from_ascii_code(87 + d)
    }
}

fn push_json_string(v: &mut Vec<char>, s: &str)
    ensures
        final(v)@ == old(v)@ + json_string(s@),
{
    let cs = chars_of(s);
    let ghost start = v@;
    v.push('"');
    let mut i: usize = 0;
    assert(cs@.take(0) =~= Seq::<char>::empty());
    while i < cs.len()
        invariant
            i <= cs.len(),
            cs@ == s@,
            v@ == start + seq!['"'] + json_escaped(cs@.take(i as int)),
        decreases cs.len() - i,
    {
        let c = cs[i];
        let ghost before = v@;
        let u = c as u32;
        if c == '"' {
            v.push('\\');
            v.push('"');
        } else if c == '\\' {
            v.push('\\');
            v.push('\\');
        } else if c == '\n' {
            v.push('\\');
            v.push('n');
        } else if c == '\r' {
            v.push('\\');
            v.push('r');
        } else if c == '\t' {
            v.push('\\');
            v.push('t');
        } else if u == 8 {
            v.push('\\');
            v.push('b');
        } else if u == 12 {
            v.push('\\');
            v.push('f');
        } else if u < 32 {
            v.push('\\');
            v.push('u');
            v.push('0');
            v.push('0');
            v.push(hex_digit_char(u / 16));
            v.push(hex_digit_char(u % 16));
        } else {
            v.push(c);
        }
        proof {
            assert(v@ =~= before + json_escape(c));
            assert(cs@.take(i + 1).drop_last() =~= cs@.take(i as int));
        }
        i = i + 1;
    }
    assert(cs@.take(cs.len() as int) =~= cs@);
    v.push('"');
    proof {
        reveal_strlit("\"");
        assert(v@ =~= start + json_string(s@));
    }
}

fn push_key(v: &mut Vec<char>, k: &str)
    ensures
        final(v)@ == old(v)@ + json_key(k@),
{
    push_json_string(v, k);
    append_str(v, ":");
}

fn push_sdk_part(v: &mut Vec<char>, c: &InnerTubeClient)
    ensures
        final(v)@ == old(v)@ + sdk_part(*c),
{
    match c.android_sdk {
        Some(n) => {
            let ghost s0 = v@;
            push_key(v, "androidSdkVersion");
            let d = decimal_vec(n as u64);
            append_chars(v, &d);
            append_str(v, ",");
            assert(v@ =~= s0 + sdk_part(*c));
        },
        None => {
            assert(v@ =~= v@ + sdk_part(*c));
        },
    }
}

fn push_device_part(v: &mut Vec<char>, c: &InnerTubeClient)
    ensures
        final(v)@ == old(v)@ + device_part(*c),
{
    match c.device {
        Some((make, model)) => {
            let ghost s0 = v@;
            append_str(v, ",");
            push_key(v, "deviceMake");
            push_json_string(v, make);
            append_str(v, ",");
            push_key(v, "deviceModel");
            push_json_string(v, model);
            assert(v@ =~= s0 + device_part(*c));
        },
        None => {
            assert(v@ =~= v@ + device_part(*c));
        },
    }
}

fn push_locale_part(v: &mut Vec<char>, c: &InnerTubeClient)
    ensures
        final(v)@ == old(v)@ + locale_part(*c),
{
    match c.locale {
        Some((hl, gl)) => {
            let ghost s0 = v@;
            append_str(v, ",");
            push_key(v, "gl");
            push_json_string(v, gl);
            append_str(v, ",");
            push_key(v, "hl");
            push_json_string(v, hl);
            assert(v@ =~= s0 + locale_part(*c));
        },
        None => {
            assert(v@ =~= v@ + locale_part(*c));
        },
    }
}

fn push_os_part(v: &mut Vec<char>, c: &InnerTubeClient)
    ensures
        final(v)@ == old(v)@ + os_part(*c),
{
    match c.os {
        Some((name, version)) => {
            let ghost s0 = v@;
            append_str(v, ",");
            push_key(v, "osName");
            push_json_string(v, name);
            append_str(v, ",");
            push_key(v, "osVersion");
            push_json_string(v, version);
            append_str(v, ",");
            push_key(v, "userAgent");
            push_json_string(v, c.user_agent);
            assert(v@ =~= s0 + os_part(*c));
        },
        None => {
            assert(v@ =~= v@ + os_part(*c));
        },
    }
}

fn push_client_object(v: &mut Vec<char>, c: &InnerTubeClient)
    ensures
        final(v)@ == old(v)@ + client_object(*c),
{
    let ghost s0 = v@;
    append_str(v, "{");
    push_sdk_part(v, c);
    push_key(v, "clientName");
    push_json_string(v, c.client_name);
    append_str(v, ",");
    push_key(v, "clientVersion");
    push_json_string(v, c.version);
    push_device_part(v, c);
    push_locale_part(v, c);
    push_os_part(v, c);
    append_str(v, "}");
    assert(v@ =~= s0 + client_object(*c));
}

fn push_bypass_part(v: &mut Vec<char>, c: &InnerTubeClient)
    ensures
        final(v)@ == old(v)@ + bypass_part(*c),
{
    let ghost s0 = v@;
    if c.age_bypass {
        append_str(v, ",");
        push_key(v, "params");
        push_json_string(v, "CgIQBg==");
    }
    assert(v@ =~= s0 + bypass_part(*c));
}

fn push_html5_part(v: &mut Vec<char>, c: &InnerTubeClient)
    ensures
        final(v)@ == old(v)@ + html5_part(*c),
{
    let ghost s0 = v@;
    if c.wants_html5 {
        append_str(v, ",");
        push_key(v, "playbackContext");
        append_str(v, "{");
        push_key(v, "contentPlaybackContext");
        append_str(v, "{");
        push_key(v, "html5Preference");
        push_json_string(v, "HTML5_PREF_WANTS");
        append_str(v, "}}");
    }
    assert(v@ =~= s0 + html5_part(*c));
}

/// Writes the JSON body of the request to a client for a video.
pub fn request_body(c: &InnerTubeClient, video_id: &str) -> (r: String)
    ensures
        r@ == spec_request_body(*c, video_id@),
{
    let mut v = chars_of("{");
    push_key(&mut v, "context");
    append_str(&mut v, "{");
    push_key(&mut v, "client");
    push_client_object(&mut v, c);
    append_str(&mut v, "}");
    push_bypass_part(&mut v, c);
    push_html5_part(&mut v, c);
    append_str(&mut v, ",");
    push_key(&mut v, "videoId");
    push_json_string(&mut v, video_id);
    append_str(&mut v, "}");
    assert(v@ =~= spec_request_body(*c, video_id@));
    string_from(&v)
}

// ───────────────────────── the search ─────────────────────────

/// Where the search for a player response stands: the next client to ask,
/// and the last reason a client gave for not serving the video.
#[derive(Debug)]
pub struct PlayerSearch {
    pub next_client: usize,
    pub last_error: Option<String>,
}

/// What the caller learned from the request the search asked for.
#[derive(Debug)]
pub enum SearchEvent {
    /// The client's request came back with a failure status (its text).
    Refused(String),
    /// The client answered with a player response.
    Answered(PlayerResponse),
    /// The watch page was read: the player response embedded in it, if any.
    PageRead(Option<PlayerResponse>),
}

/// What to do next.
#[derive(Debug)]
pub enum SearchStep {
    /// Ask the client with this index.
    AskClient(usize),
    /// Read the player response embedded in the watch page.
    ReadPage,
    /// A usable player response, and the user agent to download with.
    Found(PlayerResponse, String),
    /// No usable player response; the reason.
    Failed(String),
}

/// The search starts with the first client.
pub fn start_search() -> (r: (PlayerSearch, SearchStep))
    ensures
        r.0.next_client == 0 && r.0.last_error is None,
        r.1 matches SearchStep::AskClient(0),
{
    (PlayerSearch { next_client: 0, last_error: None }, SearchStep::AskClient(0))
}

/// After a client turns the video down with `reason`: the next client, or
/// the watch page after the last one.
pub open spec fn after_refusal(next: int, reason: Seq<char>) -> (int, Option<Seq<char>>, bool) {
    (next + 1, Some(reason), next + 1 < client_count())
}

/// The search's rules. A refused request is remembered as
/// `InnerTube API returned HTTP {status}`; an answer whose status is `OK`
/// and which has streams ends the search with that client's user agent,
/// any other answer is remembered by its verdict; after the last client
/// comes the watch page, whose usable answer ends the search with a browser
/// user agent; failing that, the last remembered reason is reported (or
/// that all clients failed).
pub open spec fn search_step_ok(
    state: PlayerSearch,
    event: SearchEvent,
    next: PlayerSearch,
    step: SearchStep,
) -> bool {
    let clients = client_count();
    let failure = |e: Option<String>|
        match e {
            Some(s) => s@,
            None => "All InnerTube clients failed"@,
        };
    match event {
        SearchEvent::Refused(status) => {
            let reason = "InnerTube API returned HTTP "@ + status@;
            &&& next.next_client == state.next_client + 1
            &&& next.last_error matches Some(e) && e@ == reason
            &&& if state.next_client + 1 < clients {
                step matches SearchStep::AskClient(i) && i == state.next_client + 1
            } else {
                step is ReadPage
            }
        },
        SearchEvent::Answered(player) => match spec_player_verdict(player) {
            Ok(_) => step matches SearchStep::Found(p, ua) && p == player && 0 <= state.next_client
                < clients && ua@ == client_user_agent(state.next_client as int),
            Err(reason) => {
                &&& next.next_client == state.next_client + 1
                &&& next.last_error matches Some(e) && e@ == reason
                &&& if state.next_client + 1 < clients {
                    step matches SearchStep::AskClient(i) && i == state.next_client + 1
                } else {
                    step is ReadPage
                }
            },
        },
        SearchEvent::PageRead(page) => match page {
            Some(player) => match spec_player_verdict(player) {
                Ok(_) => step matches SearchStep::Found(p, ua) && p == player && ua@
                    == watch_page_ua(),
                Err(_) => step matches SearchStep::Failed(m) && m@ == failure(state.last_error),
            },
            None => step matches SearchStep::Failed(m) && m@ == failure(state.last_error),
        },
    }
}

/// The user agent of the client with index `i`.
pub open spec fn client_user_agent(i: int) -> Seq<char> {
    if i == 0 || i == 1 {
        android_ua()
    } else if i == 2 || i == 3 {
        android_vr_ua()
    } else {
        web_client_ua()
    }
}

fn advance(state: PlayerSearch, reason: String) -> (r: (PlayerSearch, SearchStep))
    requires
        state.next_client < client_count(),
    ensures
        r.0.next_client == state.next_client + 1,
        r.0.last_error matches Some(e) && e@ == reason@,
        if state.next_client + 1 < client_count() {
            r.1 matches SearchStep::AskClient(i) && i == state.next_client + 1
        } else {
            r.1 is ReadPage
        },
{
    let next = state.next_client + 1;
    let step = if next < 5 {
        SearchStep::AskClient(next)
    } else {
        SearchStep::ReadPage
    };
    (PlayerSearch { next_client: next, last_error: Some(reason) }, step)
}

fn failure_text(e: Option<String>) -> (m: String)
    ensures
        m@ == match e {
            Some(s) => s@,
            None => "All InnerTube clients failed"@,
        },
{
    match e {
        Some(s) => s,
        None => String::from_str("All InnerTube clients failed"),
    }
}

/// Takes the search one step on: from what the last request brought to the
/// next request, or to its end.
pub fn search_step(state: PlayerSearch, event: SearchEvent) -> (r: (PlayerSearch, SearchStep))
    requires
        event is PageRead || state.next_client < client_count(),
    ensures
        search_step_ok(state, event, r.0, r.1),
{
    let clients = innertube_clients();
    match event {
        SearchEvent::Refused(status) => {
            let mut v = chars_of("InnerTube API returned HTTP ");
            append_str(&mut v, status.as_str());
            let reason = string_from(&v);
            advance(state, reason)
        },
        SearchEvent::Answered(player) => match player_verdict(&player) {
            Ok(_) => {
                let ua = String::from_str(clients[state.next_client].user_agent);
                (
                    PlayerSearch { next_client: state.next_client, last_error: state.last_error },
                    SearchStep::Found(player, ua),
                )
            },
            Err(reason) => advance(state, reason),
        },
        SearchEvent::PageRead(page) => match page {
            Some(player) => match player_verdict(&player) {
                Ok(_) => (
                    PlayerSearch { next_client: state.next_client, last_error: None },
                    SearchStep::Found(
                        player,
                        String::from_str(
                            "Mozilla/5.0 (Windows NT 10.0; Win64; x64) AppleWebKit/537.36 (KHTML, like Gecko) Chrome/131.0.0.0 Safari/537.36",
                        ),
                    ),
                ),
                Err(_) => {
                    let m = failure_text(state.last_error);
                    (PlayerSearch { next_client: state.next_client, last_error: None }, SearchStep::Failed(m))
                },
            },
            None => {
                let m = failure_text(state.last_error);
                (PlayerSearch { next_client: state.next_client, last_error: None }, SearchStep::Failed(m))
            },
        },
    }
}

/// The clients are asked one after another, in the listed order, each at
/// most once, and the watch page is read only after the last of them.
pub proof fn law_clients_in_order(
    state: PlayerSearch,
    event: SearchEvent,
    next: PlayerSearch,
    step: SearchStep,
)
    requires
        event is PageRead || state.next_client < client_count(),
        search_step_ok(state, event, next, step),
    ensures
        step matches SearchStep::AskClient(i) ==> (i == state.next_client + 1 && i < client_count()
            && next.next_client == i),
        step is ReadPage ==> (!(event is PageRead) && state.next_client + 1 == client_count()),
        event is PageRead ==> (step is Found || step is Failed),
{
}

} // verus!
