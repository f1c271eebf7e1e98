//! Load redline: in-memory keyword check of the plaintext sent upstream for
//! crypto-mining and deepfake requests (nothing stored, nothing echoed back).
use vstd::prelude::*;
use crate::text::{char_count, join_lines, join_lines_of, seq_contains, str_contains, string_views};
use crate::json::{collect_texts, jarr, jget, json_parse, json_parse_of, jstr, lemma_view_items, texts_of, view_items, Json, JsonView};

verus! {

/// Redline category.
#[derive(Debug, Clone, Copy, PartialEq, Eq, Structural)]
pub enum PolicyCategory {
    Mining,
    Deepfake,
}

pub open spec fn category_name(c: PolicyCategory) -> Seq<char> {
    match c {
        PolicyCategory::Mining => "mining"@,
        PolicyCategory::Deepfake => "deepfake"@,
    }
}

impl PolicyCategory {
    pub fn as_str(&self) -> (r: &'static str)
        ensures
            r@ == category_name(*self),
    {
        match self {
            PolicyCategory::Mining => "mining",
            PolicyCategory::Deepfake => "deepfake",
        }
    }
}

/// Mining terms (lower case; tool and protocol names, Chinese instruction words).
pub open spec fn mining_terms() -> Seq<Seq<char>> {
    seq![
        "挖矿木马"@, "挖矿脚本"@, "挖矿程序"@, "挖矿软件"@, "矿池"@, "矿机"@, "挖币"@,
        "xmrig"@, "ethminer"@, "teamtredminer"@, "mining pool"@, "cryptomining"@,
        "crypto miner"@, "monero miner"@, "miner program"@, "cryptocurrency miner"@,
    ]
}

/// Deepfake terms (lower case).
pub open spec fn deepfake_terms() -> Seq<Seq<char>> {
    seq![
        "换脸"@, "伪造视频"@, "伪造人脸"@, "伪造语音"@, "语音克隆"@, "音色克隆"@,
        "变声冒充"@, "人脸替换"@,
        "deepfake"@, "deep fake"@, "deepfacelab"@, "face swap"@, "face-swap"@,
        "voice clone"@, "voice cloning"@, "face swap video"@, "deepfake video"@,
    ]
}

/// Some term of `terms` occurs in `text`.
pub open spec fn hits_any(text: Seq<char>, terms: Seq<Seq<char>>) -> bool {
    exists|i: int| 0 <= i < terms.len() && seq_contains(text, #[trigger] terms[i])
}

/// Unicode lower-casing, as `str::to_lowercase` does it.
pub uninterp spec fn lowercase(s: Seq<char>) -> Seq<char>;

/// `str::to_lowercase`: the result is named `lowercase` of the input.
#[verifier::external_body]
pub(crate) fn to_lower(s: &str) -> (r: String)
    ensures
        r@ == lowercase(s@),
{
    s.to_lowercase()
}

/// The redline verdict on a text: mining terms are checked first, then
/// deepfake terms, on the lower-cased text; empty text passes.
pub open spec fn spec_detect(text: Seq<char>) -> Option<PolicyCategory> {
    if text.len() == 0 {
        None
    } else if hits_any(lowercase(text), mining_terms()) {
        Some(PolicyCategory::Mining)
    } else if hits_any(lowercase(text), deepfake_terms()) {
        Some(PolicyCategory::Deepfake)
    } else {
        None
    }
}

fn mining_list() -> (v: Vec<&'static str>)
    ensures
        v@.map_values(|s: &str| s@) == mining_terms(),
{
    let v = vec![
        "挖矿木马", "挖矿脚本", "挖矿程序", "挖矿软件", "矿池", "矿机", "挖币",
        "xmrig", "ethminer", "teamtredminer", "mining pool", "cryptomining",
        "crypto miner", "monero miner", "miner program", "cryptocurrency miner",
    ];
    assert(v@.map_values(|s: &str| s@) =~= mining_terms());
    v
}

fn deepfake_list() -> (v: Vec<&'static str>)
    ensures
        v@.map_values(|s: &str| s@) == deepfake_terms(),
{
    let v = vec![
        "换脸", "伪造视频", "伪造人脸", "伪造语音", "语音克隆", "音色克隆",
        "变声冒充", "人脸替换",
        "deepfake", "deep fake", "deepfacelab", "face swap", "face-swap",
        "voice clone", "voice cloning", "face swap video", "deepfake video",
    ];
    assert(v@.map_values(|s: &str| s@) =~= deepfake_terms());
    v
}

/// Whether any term occurs in `text`.
fn any_term(text: &str, terms: &Vec<&'static str>) -> (r: bool)
    ensures
        r == hits_any(text@, terms@.map_values(|s: &str| s@)),
{
    let ghost tv = terms@.map_values(|s: &str| s@);
    let mut i: usize = 0;
    while i < terms.len()
        invariant
            tv == terms@.map_values(|s: &str| s@),
            i <= terms.len(),
            forall|j: int| 0 <= j < i ==> !seq_contains(text@, #[trigger] tv[j]),
        decreases terms.len() - i,
    {
        if str_contains(text, terms[i]) {
            assert(seq_contains(text@, tv[i as int]));
            return true;
        }
        i = i + 1;
    }
    false
}

/// Redline check of one text (case-insensitive substring match); tells the
/// category only, never the term that matched.
pub fn detect(text: &str) -> (r: Option<PolicyCategory>)
    ensures
        r == spec_detect(text@),
{
    if char_count(text) == 0 {
        return None;
    }
    let lower = to_lower(text);
    if any_term(lower.as_str(), &mining_list()) {
        return Some(PolicyCategory::Mining);
    }
    if any_term(lower.as_str(), &deepfake_list()) {
        return Some(PolicyCategory::Deepfake);
    }
    None
}

/// The redline policy: on/off switch and hit counters (process memory only).
pub struct LoadPolicy {
    enabled: bool,
    mining_hits: u64,
    deepfake_hits: u64,
}

pub struct PolicyView {
    pub enabled: bool,
    pub mining_hits: u64,
    pub deepfake_hits: u64,
}

impl View for LoadPolicy {
    type V = PolicyView;

    closed spec fn view(&self) -> PolicyView {
        PolicyView { enabled: self.enabled, mining_hits: self.mining_hits, deepfake_hits: self.deepfake_hits }
    }
}

/// `x + 1`, wrapping like an atomic counter does.
pub open spec fn bump(x: u64) -> u64 {
    if x < u64::MAX { (x + 1) as u64 } else { 0 }
}

/// The switch a persisted policy file holds: `{"enabled": b}` (the
/// one-element array `[b]` reads the same way); `None` when it holds no
/// switch.
pub open spec fn persisted_switch(text: Seq<char>) -> Option<bool> {
    match json_parse_of(text) {
        Some(JsonView::Obj(fs)) => match jget(JsonView::Obj(fs), "enabled"@) {
            Some(JsonView::Bool(b)) => Some(b),
            _ => None,
        },
        Some(JsonView::Arr(a)) => if a.len() == 1 {
            match a[0] {
                JsonView::Bool(b) => Some(b),
                _ => None,
            }
        } else {
            None
        },
        _ => None,
    }
}

/// The switch at start: the persisted one when the file exists and holds
/// one, else on.
pub open spec fn start_switch(file: Option<Seq<char>>) -> bool {
    match file {
        Some(t) => match persisted_switch(t) {
            Some(b) => b,
            None => true,
        },
        None => true,
    }
}

impl LoadPolicy {
    /// On, with no hits (what starting without a persisted file gives).
    pub fn new() -> (p: Self)
        ensures
            p@ == (PolicyView { enabled: true, mining_hits: 0, deepfake_hits: 0 }),
    {
        LoadPolicy { enabled: true, mining_hits: 0, deepfake_hits: 0 }
    }

    /// The policy at start from the persisted file's text (`None`: no file):
    /// the file's switch wins; no hits.
    pub fn from_file(text: Option<&str>) -> (p: Self)
        ensures
            p@ == (PolicyView {
                enabled: start_switch(match text {
                    Some(t) => Some(t@),
                    None => None,
                }),
                mining_hits: 0,
                deepfake_hits: 0,
            }),
    {
        let mut p = LoadPolicy::new();
        if let Some(t) = text {
            if let Some(b) = read_switch(t) {
                p.set_enabled(b);
            }
        }
        p
    }

    /// The text persisted for a switch: `{"enabled":true}` or `{"enabled":false}`.
    pub fn file_text(on: bool) -> (s: &'static str)
        ensures
            s@ == (if on { "{\"enabled\":true}"@ } else { "{\"enabled\":false}"@ }),
    {
        if on {
            "{\"enabled\":true}"
        } else {
            "{\"enabled\":false}"
        }
    }

    pub fn enabled(&self) -> (b: bool)
        ensures
            b == self@.enabled,
    {
        self.enabled
    }

    /// Switches the check on or off.
    pub fn set_enabled(&mut self, on: bool)
        ensures
            final(self)@ == (PolicyView { enabled: on, ..old(self)@ }),
    {
        self.enabled = on;
    }

    /// Hit counters (mining, deepfake).
    pub fn hits(&self) -> (r: (u64, u64))
        ensures
            r == (self@.mining_hits, self@.deepfake_hits),
    {
        (self.mining_hits, self.deepfake_hits)
    }

    /// Checks a text: when enabled and it hits a redline, counts it and tells
    /// the category; otherwise `None` and nothing counted.
    pub fn check(&mut self, text: &str) -> (r: Option<PolicyCategory>)
        ensures
            r == (if old(self)@.enabled { spec_detect(text@) } else { None }),
            final(self)@.enabled == old(self)@.enabled,
            final(self)@.mining_hits == (if r == Some(PolicyCategory::Mining) { bump(old(self)@.mining_hits) } else { old(self)@.mining_hits }),
            final(self)@.deepfake_hits == (if r == Some(PolicyCategory::Deepfake) { bump(old(self)@.deepfake_hits) } else { old(self)@.deepfake_hits }),
    {
        if !self.enabled {
            return None;
        }
        match detect(text) {
            Some(cat) => {
                match cat {
                    PolicyCategory::Mining => {
                        self.mining_hits = self.mining_hits.wrapping_add(1);
                    },
                    PolicyCategory::Deepfake => {
                        self.deepfake_hits = self.deepfake_hits.wrapping_add(1);
                    },
                }
                Some(cat)
            },
            None => None,
        }
    }
}

/// A disabled policy never blocks and never counts.
pub proof fn law_disabled_never_blocks(before: PolicyView, after: PolicyView, text: Seq<char>, r: Option<PolicyCategory>)
    requires
        !before.enabled,
        r == (if before.enabled { spec_detect(text) } else { None }),
        after.mining_hits == (if r == Some(PolicyCategory::Mining) { bump(before.mining_hits) } else { before.mining_hits }),
        after.deepfake_hits == (if r == Some(PolicyCategory::Deepfake) { bump(before.deepfake_hits) } else { before.deepfake_hits }),
    ensures
        r is None,
        after.mining_hits == before.mining_hits,
        after.deepfake_hits == before.deepfake_hits,
{
}

/// One of the mining terms of the redline (lower case): Chinese instruction
/// words, mining tools and protocol names.
pub open spec fn is_listed_mining_term(t: Seq<char>) -> bool {
    t == "挖矿木马"@
        || t == "挖矿脚本"@
        || t == "挖矿程序"@
        || t == "挖矿软件"@
        || t == "矿池"@
        || t == "矿机"@
        || t == "挖币"@
        || t == "xmrig"@
        || t == "ethminer"@
        || t == "teamtredminer"@
        || t == "mining pool"@
        || t == "cryptomining"@
        || t == "crypto miner"@
        || t == "monero miner"@
        || t == "miner program"@
        || t == "cryptocurrency miner"@
}

/// One of the deepfake terms of the redline (lower case).
pub open spec fn is_listed_deepfake_term(t: Seq<char>) -> bool {
    t == "换脸"@
        || t == "伪造视频"@
        || t == "伪造人脸"@
        || t == "伪造语音"@
        || t == "语音克隆"@
        || t == "音色克隆"@
        || t == "变声冒充"@
        || t == "人脸替换"@
        || t == "deepfake"@
        || t == "deep fake"@
        || t == "deepfacelab"@
        || t == "face swap"@
        || t == "face-swap"@
        || t == "voice clone"@
        || t == "voice cloning"@
        || t == "face swap video"@
        || t == "deepfake video"@
}

/// Every term checked for mining is a listed mining term, and each listed
/// one is checked.
proof fn lemma_mining_terms_listed()
    ensures
        forall|i: int| 0 <= i < mining_terms().len() ==> is_listed_mining_term(#[trigger] mining_terms()[i]),
        mining_terms().len() == 16,
{
    assert forall|i: int| 0 <= i < mining_terms().len() implies is_listed_mining_term(#[trigger] mining_terms()[i]) by {
        if i == 0 {
            assert(mining_terms()[i] == "挖矿木马"@);
        } else if i == 1 {
            assert(mining_terms()[i] == "挖矿脚本"@);
        } else if i == 2 {
            assert(mining_terms()[i] == "挖矿程序"@);
        } else if i == 3 {
            assert(mining_terms()[i] == "挖矿软件"@);
        } else if i == 4 {
            assert(mining_terms()[i] == "矿池"@);
        } else if i == 5 {
            assert(mining_terms()[i] == "矿机"@);
        } else if i == 6 {
            assert(mining_terms()[i] == "挖币"@);
        } else if i == 7 {
            assert(mining_terms()[i] == "xmrig"@);
        } else if i == 8 {
            assert(mining_terms()[i] == "ethminer"@);
        } else if i == 9 {
            assert(mining_terms()[i] == "teamtredminer"@);
        } else if i == 10 {
            assert(mining_terms()[i] == "mining pool"@);
        } else if i == 11 {
            assert(mining_terms()[i] == "cryptomining"@);
        } else if i == 12 {
            assert(mining_terms()[i] == "crypto miner"@);
        } else if i == 13 {
            assert(mining_terms()[i] == "monero miner"@);
        } else if i == 14 {
            assert(mining_terms()[i] == "miner program"@);
        } else if i == 15 {
            assert(mining_terms()[i] == "cryptocurrency miner"@);
        }
    }
}

/// Every term checked for deepfakes is a listed deepfake term.
proof fn lemma_deepfake_terms_listed()
    ensures
        forall|i: int| 0 <= i < deepfake_terms().len() ==> is_listed_deepfake_term(#[trigger] deepfake_terms()[i]),
        deepfake_terms().len() == 17,
{
    assert forall|i: int| 0 <= i < deepfake_terms().len() implies is_listed_deepfake_term(#[trigger] deepfake_terms()[i]) by {
        if i == 0 {
            assert(deepfake_terms()[i] == "换脸"@);
        } else if i == 1 {
            assert(deepfake_terms()[i] == "伪造视频"@);
        } else if i == 2 {
            assert(deepfake_terms()[i] == "伪造人脸"@);
        } else if i == 3 {
            assert(deepfake_terms()[i] == "伪造语音"@);
        } else if i == 4 {
            assert(deepfake_terms()[i] == "语音克隆"@);
        } else if i == 5 {
            assert(deepfake_terms()[i] == "音色克隆"@);
        } else if i == 6 {
            assert(deepfake_terms()[i] == "变声冒充"@);
        } else if i == 7 {
            assert(deepfake_terms()[i] == "人脸替换"@);
        } else if i == 8 {
            assert(deepfake_terms()[i] == "deepfake"@);
        } else if i == 9 {
            assert(deepfake_terms()[i] == "deep fake"@);
        } else if i == 10 {
            assert(deepfake_terms()[i] == "deepfacelab"@);
        } else if i == 11 {
            assert(deepfake_terms()[i] == "face swap"@);
        } else if i == 12 {
            assert(deepfake_terms()[i] == "face-swap"@);
        } else if i == 13 {
            assert(deepfake_terms()[i] == "voice clone"@);
        } else if i == 14 {
            assert(deepfake_terms()[i] == "voice cloning"@);
        } else if i == 15 {
            assert(deepfake_terms()[i] == "face swap video"@);
        } else if i == 16 {
            assert(deepfake_terms()[i] == "deepfake video"@);
        }
    }
}

/// A text whose lower-cased form holds a listed mining term (such as
/// `ethminer` or `xmrig`) is refused as mining.
pub proof fn law_mining_term_refused(text: Seq<char>, t: Seq<char>)
    requires
        text.len() > 0,
        is_listed_mining_term(t),
        seq_contains(lowercase(text), t),
    ensures
        spec_detect(text) == Some(PolicyCategory::Mining),
{
    if t == "挖矿木马"@ {
        assert(mining_terms()[0] == t);
    }
    if t == "挖矿脚本"@ {
        assert(mining_terms()[1] == t);
    }
    if t == "挖矿程序"@ {
        assert(mining_terms()[2] == t);
    }
    if t == "挖矿软件"@ {
        assert(mining_terms()[3] == t);
    }
    if t == "矿池"@ {
        assert(mining_terms()[4] == t);
    }
    if t == "矿机"@ {
        assert(mining_terms()[5] == t);
    }
    if t == "挖币"@ {
        assert(mining_terms()[6] == t);
    }
    if t == "xmrig"@ {
        assert(mining_terms()[7] == t);
    }
    if t == "ethminer"@ {
        assert(mining_terms()[8] == t);
    }
    if t == "teamtredminer"@ {
        assert(mining_terms()[9] == t);
    }
    if t == "mining pool"@ {
        assert(mining_terms()[10] == t);
    }
    if t == "cryptomining"@ {
        assert(mining_terms()[11] == t);
    }
    if t == "crypto miner"@ {
        assert(mining_terms()[12] == t);
    }
    if t == "monero miner"@ {
        assert(mining_terms()[13] == t);
    }
    if t == "miner program"@ {
        assert(mining_terms()[14] == t);
    }
    if t == "cryptocurrency miner"@ {
        assert(mining_terms()[15] == t);
    }
}

/// A text with no listed mining term whose lower-cased form holds a listed
/// deepfake term (such as `face swap`) is refused as deepfake.
pub proof fn law_deepfake_term_refused(text: Seq<char>, t: Seq<char>)
    requires
        text.len() > 0,
        forall|m: Seq<char>| is_listed_mining_term(m) ==> !seq_contains(lowercase(text), m),
        is_listed_deepfake_term(t),
        seq_contains(lowercase(text), t),
    ensures
        spec_detect(text) == Some(PolicyCategory::Deepfake),
{
    lemma_mining_terms_listed();
    if t == "换脸"@ {
        assert(deepfake_terms()[0] == t);
    }
    if t == "伪造视频"@ {
        assert(deepfake_terms()[1] == t);
    }
    if t == "伪造人脸"@ {
        assert(deepfake_terms()[2] == t);
    }
    if t == "伪造语音"@ {
        assert(deepfake_terms()[3] == t);
    }
    if t == "语音克隆"@ {
        assert(deepfake_terms()[4] == t);
    }
    if t == "音色克隆"@ {
        assert(deepfake_terms()[5] == t);
    }
    if t == "变声冒充"@ {
        assert(deepfake_terms()[6] == t);
    }
    if t == "人脸替换"@ {
        assert(deepfake_terms()[7] == t);
    }
    if t == "deepfake"@ {
        assert(deepfake_terms()[8] == t);
    }
    if t == "deep fake"@ {
        assert(deepfake_terms()[9] == t);
    }
    if t == "deepfacelab"@ {
        assert(deepfake_terms()[10] == t);
    }
    if t == "face swap"@ {
        assert(deepfake_terms()[11] == t);
    }
    if t == "face-swap"@ {
        assert(deepfake_terms()[12] == t);
    }
    if t == "voice clone"@ {
        assert(deepfake_terms()[13] == t);
    }
    if t == "voice cloning"@ {
        assert(deepfake_terms()[14] == t);
    }
    if t == "face swap video"@ {
        assert(deepfake_terms()[15] == t);
    }
    if t == "deepfake video"@ {
        assert(deepfake_terms()[16] == t);
    }
}

/// A text holding no listed term passes.
pub proof fn law_clean_text_passes(text: Seq<char>)
    requires
        forall|m: Seq<char>| is_listed_mining_term(m) ==> !seq_contains(lowercase(text), m),
        forall|m: Seq<char>| is_listed_deepfake_term(m) ==> !seq_contains(lowercase(text), m),
    ensures
        spec_detect(text) is None,
{
    lemma_mining_terms_listed();
    lemma_deepfake_terms_listed();
}

/// Empty text always passes.
pub proof fn law_empty_passes()
    ensures
        spec_detect(Seq::<char>::empty()) is None,
{
}

} // verus!

verus! {

/// The system text of a request: a string, or the `text` of each block.
pub open spec fn system_texts(body: JsonView) -> Seq<Seq<char>> {
    match jget(body, "system"@) {
        Some(JsonView::Str(s)) => seq![s],
        Some(JsonView::Arr(a)) => texts_of(a),
        _ => Seq::empty(),
    }
}

/// The texts of the messages: a string content, or the `text` of each block.
pub open spec fn content_texts(ms: Seq<JsonView>) -> Seq<Seq<char>>
    decreases ms.len(),
{
    if ms.len() == 0 {
        Seq::empty()
    } else {
        content_texts(ms.drop_last()) + match jget(ms.last(), "content"@) {
            Some(JsonView::Str(s)) => seq![s],
            Some(JsonView::Arr(bs)) => texts_of(bs),
            _ => Seq::empty(),
        }
    }
}

/// The tool descriptions: each tool's own, then its function's.
pub open spec fn tool_descriptions(ts: Seq<JsonView>) -> Seq<Seq<char>>
    decreases ts.len(),
{
    if ts.len() == 0 {
        Seq::empty()
    } else {
        let t = ts.last();
        tool_descriptions(ts.drop_last()) + match jstr(t, "description"@) {
            Some(d) => seq![d],
            None => Seq::empty(),
        } + match jget(t, "function"@) {
            Some(f) => match jstr(f, "description"@) {
                Some(d) => seq![d],
                None => Seq::empty(),
            },
            None => Seq::empty(),
        }
    }
}

/// Every text of a request that the policy reads, in order: system, message
/// contents, tool descriptions.
pub open spec fn request_texts(body: JsonView) -> Seq<Seq<char>> {
    system_texts(body) + match jarr(body, "messages"@) {
        Some(ms) => content_texts(ms),
        None => Seq::empty(),
    } + match jarr(body, "tools"@) {
        Some(ts) => tool_descriptions(ts),
        None => Seq::empty(),
    }
}

fn push_text(parts: &mut Vec<String>, t: &str)
    ensures
        string_views(final(parts)@) == string_views(old(parts)@) + seq![t@],
{
    parts.push(t.to_string());
    assert(string_views(parts@) =~= string_views(old(parts)@) + seq![t@]);
}

fn push_texts(parts: &mut Vec<String>, more: Vec<String>)
    ensures
        string_views(final(parts)@) == string_views(old(parts)@) + string_views(more@),
{
    let mut i: usize = 0;
    while i < more.len()
        invariant
            i <= more.len(),
            string_views(parts@) == string_views(old(parts)@) + string_views(more@.take(i as int)),
        decreases more.len() - i,
    {
        push_text(parts, more[i].as_str());
        assert(string_views(more@.take(i + 1)) =~= string_views(more@.take(i as int)) + seq![more@[i as int]@]);
        i = i + 1;
    }
    assert(more@.take(more.len() as int) =~= more@);
}

/// The system text parts of a request.
pub fn system_parts(body: &Json) -> (r: Vec<String>)
    ensures
        string_views(r@) == system_texts(body.view_of()),
{
    let mut r: Vec<String> = Vec::new();
    match body.get("system") {
        Some(Json::Str(s)) => push_text(&mut r, s.as_str()),
        Some(Json::Array(a)) => {
            r = collect_texts(a);
        },
        _ => {},
    }
    r
}

/// The plain text of a request that the policy checks: the system text,
/// every message content (a string, or the `text` of each block) and every
/// tool description, joined by line breaks.
pub fn extract_request_text(body: &Json) -> (s: String)
    ensures
        s@ == join_lines(request_texts(body.view_of())),
{
    let ghost bv = body.view_of();
    let mut parts = system_parts(body);
    let ghost after_system = string_views(parts@);
    match body.get_array("messages") {
        Some(ms) => {
            proof {
                lemma_view_items(ms@);
            }
            let mut i: usize = 0;
            while i < ms.len()
                invariant
                    i <= ms.len(),
                    view_items(ms@).len() == ms@.len(),
                    forall|k: int| 0 <= k < ms@.len() ==> #[trigger] view_items(ms@)[k] == ms@[k].view_of(),
                    string_views(parts@) == after_system + content_texts(view_items(ms@).take(i as int)),
                decreases ms.len() - i,
            {
                assert(view_items(ms@).take(i + 1).drop_last() =~= view_items(ms@).take(i as int));
                let ghost before = string_views(parts@);
                match ms[i].get("content") {
                    Some(Json::Str(s)) => push_text(&mut parts, s.as_str()),
                    Some(Json::Array(bs)) => push_texts(&mut parts, collect_texts(bs)),
                    _ => {},
                }
                assert(string_views(parts@) =~= after_system + content_texts(view_items(ms@).take(i + 1)));
                i = i + 1;
            }
            assert(view_items(ms@).take(ms.len() as int) =~= view_items(ms@));
        },
        None => {},
    }
    let ghost after_messages = string_views(parts@);
    match body.get_array("tools") {
        Some(ts) => {
            proof {
                lemma_view_items(ts@);
            }
            let mut i: usize = 0;
            while i < ts.len()
                invariant
                    i <= ts.len(),
                    view_items(ts@).len() == ts@.len(),
                    forall|k: int| 0 <= k < ts@.len() ==> #[trigger] view_items(ts@)[k] == ts@[k].view_of(),
                    string_views(parts@) == after_messages + tool_descriptions(view_items(ts@).take(i as int)),
                decreases ts.len() - i,
            {
                assert(view_items(ts@).take(i + 1).drop_last() =~= view_items(ts@).take(i as int));
                let t = &ts[i];
                match t.get_str("description") {
                    Some(d) => push_text(&mut parts, d),
                    None => {},
                }
                match t.get("function") {
                    Some(f) => match f.get_str("description") {
                        Some(d) => push_text(&mut parts, d),
                        None => {},
                    },
                    None => {},
                }
                assert(string_views(parts@) =~= after_messages + tool_descriptions(view_items(ts@).take(i + 1)));
                i = i + 1;
            }
            assert(view_items(ts@).take(ts.len() as int) =~= view_items(ts@));
        },
        None => {},
    }
    assert(string_views(parts@) =~= request_texts(bv));
    join_lines_of(&parts)
}

/// The switch a persisted policy file holds.
pub fn read_switch(text: &str) -> (r: Option<bool>)
    ensures
        r == persisted_switch(text@),
{
    match json_parse(text) {
        Ok(v) => match &v {
            Json::Object(_) => match v.get("enabled") {
                Some(Json::Bool(b)) => Some(*b),
                _ => None,
            },
            Json::Array(a) => {
                proof {
                    lemma_view_items(a@);
                }
                if a.len() == 1 {
                    match &a[0] {
                        Json::Bool(b) => Some(*b),
                        _ => None,
                    }
                } else {
                    None
                }
            },
            _ => None,
        },
        Err(_) => None,
    }
}

/// Each part occurs in the parts joined by line breaks.
proof fn lemma_join_lines_holds(parts: Seq<Seq<char>>, i: int)
    requires
        0 <= i < parts.len(),
    ensures
        seq_contains(join_lines(parts), parts[i]),
    decreases parts.len(),
{
    let j = join_lines(parts);
    if parts.len() == 1 {
        assert(j.subrange(0, parts[0].len() as int) =~= parts[0]);
        assert(crate::text::occurs_at(j, parts[i], 0));
    } else {
        let pre = join_lines(parts.drop_last());
        if i == parts.len() - 1 {
            let at: int = pre.len() as int + 1;
            assert(j.subrange(at, at + parts[i].len()) =~= parts[i]);
            assert(crate::text::occurs_at(j, parts[i], at));
        } else {
            assert(parts.drop_last()[i] == parts[i]);
            lemma_join_lines_holds(parts.drop_last(), i);
            let at = choose|at: int| crate::text::occurs_at(pre, parts[i], at);
            assert(j.subrange(at, at + parts[i].len()) =~= pre.subrange(at, at + parts[i].len()));
            assert(crate::text::occurs_at(j, parts[i], at));
        }
    }
}

/// A message's text content is among the texts read.
proof fn lemma_content_texts_has(ms: Seq<JsonView>, k: int, t: Seq<char>)
    requires
        0 <= k < ms.len(),
        jget(ms[k], "content"@) == Some(JsonView::Str(t)),
    ensures
        exists|j: int| 0 <= j < content_texts(ms).len() && content_texts(ms)[j] == t,
    decreases ms.len(),
{
    let pre = content_texts(ms.drop_last());
    if k == ms.len() - 1 {
        assert(content_texts(ms)[pre.len() as int] == t);
    } else {
        assert(ms.drop_last()[k] == ms[k]);
        lemma_content_texts_has(ms.drop_last(), k, t);
        let j = choose|j: int| 0 <= j < pre.len() && pre[j] == t;
        assert(content_texts(ms)[j] == t);
    }
}

/// The text the redline reads holds the request's plain-text system
/// prompt, so a term in it is seen.
pub proof fn law_checked_text_holds_system(body: JsonView, t: Seq<char>)
    requires
        jget(body, "system"@) == Some(JsonView::Str(t)),
    ensures
        seq_contains(join_lines(request_texts(body)), t),
{
    let all = request_texts(body);
    assert(all[0] == t);
    lemma_join_lines_holds(all, 0);
}

/// The text the redline reads holds the text of every plain-text message,
/// so a term in any of them is seen.
pub proof fn law_checked_text_holds_messages(body: JsonView, ms: Seq<JsonView>, k: int, t: Seq<char>)
    requires
        jarr(body, "messages"@) == Some(ms),
        0 <= k < ms.len(),
        jget(ms[k], "content"@) == Some(JsonView::Str(t)),
    ensures
        seq_contains(join_lines(request_texts(body)), t),
{
    let all = request_texts(body);
    lemma_content_texts_has(ms, k, t);
    let j = choose|j: int| 0 <= j < content_texts(ms).len() && content_texts(ms)[j] == t;
    let at: int = system_texts(body).len() + j;
    assert(all[at] == t);
    lemma_join_lines_holds(all, at);
}

} // verus!
