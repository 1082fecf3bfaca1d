//! The editor's navigation and interaction state that is independent of any
//! window: the activities of the side bar, the messages of the assistant, the
//! find-and-replace state and the dialogs.

use vstd::prelude::*;
use crate::text::{is_blank, str_eq, trim, trim_string};
use crate::assistant::action_name;

verus! {

pub const IC_EXPLORER: &'static str = "📚";
pub const IC_CHAPTERS: &'static str = "📑";
pub const IC_OUTLINE: &'static str = "🗂";
pub const IC_PEOPLE: &'static str = "👥";
pub const IC_MAP: &'static str = "🗺";
pub const IC_TIMELINE: &'static str = "⏱️";
pub const IC_TASKS: &'static str = "🎯";
pub const IC_SEARCH: &'static str = "🔍";
pub const IC_STATS: &'static str = "📊";
pub const IC_SETTINGS: &'static str = "⚙️";

/// The activities of the side bar.
#[derive(Clone, Copy, PartialEq, Eq, Structural)]
pub enum Activity {
    Library,
    Chapters,
    Outline,
    Characters,
    World,
    Timeline,
    Tasks,
    Search,
    Stats,
    Settings,
}

/// The icon of an activity.
pub open spec fn activity_icon(a: Activity) -> &'static str {
    match a {
        Activity::Library => IC_EXPLORER,
        Activity::Chapters => IC_CHAPTERS,
        Activity::Outline => IC_OUTLINE,
        Activity::Characters => IC_PEOPLE,
        Activity::World => IC_MAP,
        Activity::Timeline => IC_TIMELINE,
        Activity::Tasks => IC_TASKS,
        Activity::Search => IC_SEARCH,
        Activity::Stats => IC_STATS,
        Activity::Settings => IC_SETTINGS,
    }
}

/// The label of an activity.
pub open spec fn activity_label(a: Activity) -> &'static str {
    match a {
        Activity::Library => "书库",
        Activity::Chapters => "章节",
        Activity::Outline => "大纲",
        Activity::Characters => "人物",
        Activity::World => "世界观",
        Activity::Timeline => "时间线",
        Activity::Tasks => "任务",
        Activity::Search => "搜索",
        Activity::Stats => "统计",
        Activity::Settings => "设置",
    }
}

/// The activities in the order of the side bar.
pub open spec fn activity_order() -> Seq<Activity> {
    seq![
        Activity::Library,
        Activity::Chapters,
        Activity::Outline,
        Activity::Characters,
        Activity::World,
        Activity::Timeline,
        Activity::Tasks,
        Activity::Search,
        Activity::Stats,
        Activity::Settings,
    ]
}

impl Activity {
    /// The activity's icon.
    pub fn icon(self) -> (r: &'static str)
        ensures
            r == activity_icon(self),
    {
        match self {
            Activity::Library => IC_EXPLORER,
            Activity::Chapters => IC_CHAPTERS,
            Activity::Outline => IC_OUTLINE,
            Activity::Characters => IC_PEOPLE,
            Activity::World => IC_MAP,
            Activity::Timeline => IC_TIMELINE,
            Activity::Tasks => IC_TASKS,
            Activity::Search => IC_SEARCH,
            Activity::Stats => IC_STATS,
            Activity::Settings => IC_SETTINGS,
        }
    }

    /// The activity's label.
    pub fn label(self) -> (r: &'static str)
        ensures
            r == activity_label(self),
    {
        match self {
            Activity::Library => "书库",
            Activity::Chapters => "章节",
            Activity::Outline => "大纲",
            Activity::Characters => "人物",
            Activity::World => "世界观",
            Activity::Timeline => "时间线",
            Activity::Tasks => "任务",
            Activity::Search => "搜索",
            Activity::Stats => "统计",
            Activity::Settings => "设置",
        }
    }

    /// Every activity, once each, in the order of the side bar.
    pub fn all() -> (r: [Activity; 10])
        ensures
            r@ == activity_order(),
    {
        let r = [
            Activity::Library,
            Activity::Chapters,
            Activity::Outline,
            Activity::Characters,
            Activity::World,
            Activity::Timeline,
            Activity::Tasks,
            Activity::Search,
            Activity::Stats,
            Activity::Settings,
        ];
        assert(r@ =~= activity_order());
        r
    }
}

/// A message of the assistant's conversation.
#[derive(Clone)]
pub struct AiMsg {
    /// `user`, `assistant` or `error`.
    pub role: String,
    pub content: String,
    /// The action that produced the message, which decides the buttons shown under it.
    pub action: String,
}

/// The state of find and replace in the open chapter.
pub struct FindState {
    pub query: String,
    pub replace: String,
    /// The character positions of the matches of `query`.
    pub matches: Vec<usize>,
    /// Which match is current (taken modulo the number of matches).
    pub current: usize,
    pub replace_mode: bool,
}

impl FindState {
    /// An empty search: no query, no replacement, no match, find mode.
    pub fn new() -> (r: FindState)
        ensures
            r.query@.len() == 0,
            r.replace@.len() == 0,
            r.matches@.len() == 0,
            r.current == 0,
            !r.replace_mode,
    {
        FindState {
            query: String::new(),
            replace: String::new(),
            matches: Vec::new(),
            current: 0,
            replace_mode: false,
        }
    }
}

/// The modal dialogs.
#[derive(Clone, PartialEq, Eq)]
pub enum DialogKind {
    NewNovel,
    NewChapter,
    NewVolume,
    /// Renaming the chapter with this id.
    RenameChapter(String),
    /// Renaming the volume with this id.
    RenameVolume(String),
    /// Deleting a chapter: its id and title.
    DeleteChapter(String, String),
    /// Deleting a volume: its id and title.
    DeleteVolume(String, String),
    /// Deleting a novel: its id and title.
    DeleteNovel(String, String),
    Export,
    Import,
    About,
}

/// What the assistant's worker reports while a reply streams in.
pub enum AiEvent {
    /// A piece of the reply.
    Chunk(String),
    /// The reply is complete.
    Done,
    /// The request failed, with the reason.
    Error(String),
}


// ---------------------------------------------------------------------------
// Tabs
// ---------------------------------------------------------------------------

/// The views of the open tabs.
pub open spec fn tab_views(tabs: Seq<String>) -> Seq<Seq<char>> {
    Seq::new(tabs.len(), |i: int| tabs[i]@)
}

/// The view of an optional tab.
pub open spec fn tab_view(t: Option<String>) -> Option<Seq<char>> {
    match t {
        Some(s) => Some(s@),
        None => None,
    }
}

/// The tabs after opening `cid`: it is added at the end unless already open.
pub open spec fn tabs_opened(tabs: Seq<Seq<char>>, cid: Seq<char>) -> Seq<Seq<char>> {
    if tabs.contains(cid) {
        tabs
    } else {
        tabs.push(cid)
    }
}

/// The tabs after closing `cid`: every tab of it is removed.
pub open spec fn tabs_closed(tabs: Seq<Seq<char>>, cid: Seq<char>) -> Seq<Seq<char>> {
    tabs.filter(|t: Seq<char>| t != cid)
}

/// Opens chapter `cid` in a tab, which becomes the active one; a chapter
/// already open keeps its tab.
pub fn open_tab(tabs: &mut Vec<String>, active: &mut Option<String>, cid: &str)
    ensures
        tab_views(final(tabs)@) == tabs_opened(tab_views(old(tabs)@), cid@),
        tab_view(*final(active)) == Some(cid@),
{
    let mut found = false;
    let mut i: usize = 0;
    while i < tabs.len()
        invariant
            i <= tabs@.len(),
            found == exists|k: int| 0 <= k < i && tabs@[k]@ == cid@,
        decreases tabs.len() - i,
    {
        if str_eq(tabs[i].as_str(), cid) {
            found = true;
        }
        i = i + 1;
    }
    let ghost before = tab_views(tabs@);
    proof {
        if found {
            let k = choose|k: int| 0 <= k < tabs@.len() && tabs@[k]@ == cid@;
            assert(before[k] == cid@);
        } else {
            assert forall|k: int| 0 <= k < before.len() implies before[k] != cid@ by {}
        }
    }
    if !found {
        tabs.push(cid.to_owned());
        assert(tab_views(tabs@) =~= before.push(cid@));
    }
    *active = Some(cid.to_owned());
}

/// Closes every tab of chapter `cid`; when it was the active one, the last
/// remaining tab becomes active (none when no tab is left).
pub fn close_tab(tabs: &mut Vec<String>, active: &mut Option<String>, cid: &str)
    ensures
        tab_views(final(tabs)@) == tabs_closed(tab_views(old(tabs)@), cid@),
        tab_view(*old(active)) == Some(cid@) ==> tab_view(*final(active)) == (if final(tabs)@.len() == 0 {
            None
        } else {
            Some(final(tabs)@.last()@)
        }),
        tab_view(*old(active)) != Some(cid@) ==> *final(active) == *old(active),
{
    let ghost old_views = tab_views(tabs@);
    let mut kept: Vec<String> = Vec::new();
    proof {
        reveal(Seq::filter);
        assert(tab_views(kept@) =~= tabs_closed(old_views.take(0), cid@));
    }
    let mut i: usize = 0;
    while i < tabs.len()
        invariant
            i <= tabs@.len(),
            old_views == tab_views(tabs@),
            tab_views(kept@) == tabs_closed(old_views.take(i as int), cid@),
        decreases tabs.len() - i,
    {
        proof {
            reveal(Seq::filter);
            assert(old_views.take(i + 1).drop_last() =~= old_views.take(i as int));
            assert(old_views.take(i + 1).last() == tabs@[i as int]@);
        }
        let ghost before = tab_views(kept@);
        if !str_eq(tabs[i].as_str(), cid) {
            kept.push(tabs[i].clone());
            assert(tab_views(kept@) =~= before.push(tabs@[i as int]@));
        }
        i = i + 1;
    }
    assert(old_views.take(tabs@.len() as int) =~= old_views);
    let was_active = match active {
        Some(a) => str_eq(a.as_str(), cid),
        None => false,
    };
    if was_active {
        *active = if kept.len() == 0 {
            None
        } else {
            Some(kept[kept.len() - 1].clone())
        };
    }
    *tabs = kept;
}

// ---------------------------------------------------------------------------
// The assistant's conversation
// ---------------------------------------------------------------------------

pub const ROLE_USER: &'static str = "user";
pub const ROLE_ASSISTANT: &'static str = "assistant";
pub const ROLE_ERROR: &'static str = "error";
/// Refused while a reply is still streaming.
pub const AI_BUSY: &'static str = "已有任务进行中，请先停止或等待";
/// Refused while no API key is set.
pub const AI_NO_KEY: &'static str = "请先在「设置 → AI 服务」中填写 API Key";
/// What separates the messages of a request in the conversation.
pub const TURN_SEPARATOR: &'static str = "\n\n";

/// The conversation with the assistant and the reply streaming in.
pub struct AiSession {
    pub msgs: Vec<AiMsg>,
    pub streaming: bool,
    pub stream_text: String,
    /// The action of the request in progress.
    pub action: String,
    pub error: Option<String>,
}

/// A message as (role, content, action).
pub open spec fn msg_view(m: AiMsg) -> (Seq<char>, Seq<char>, Seq<char>) {
    (m.role@, m.content@, m.action@)
}

/// The messages of a conversation as (role, content, action).
pub open spec fn msgs_view(ms: Seq<AiMsg>) -> Seq<(Seq<char>, Seq<char>, Seq<char>)> {
    Seq::new(ms.len(), |i: int| msg_view(ms[i]))
}

/// The contents of the messages of a request, each followed by a blank line.
pub open spec fn joined_contents(ms: Seq<(String, String)>) -> Seq<char>
    decreases ms.len(),
{
    if ms.len() == 0 {
        Seq::empty()
    } else {
        joined_contents(ms.drop_last()) + ms.last().1@ + TURN_SEPARATOR@
    }
}

/// The stream after `evs`: the text received so far, whether the end came,
/// and the last error reported.
pub open spec fn received(evs: Seq<AiEvent>, text: Seq<char>) -> (Seq<char>, bool, Option<Seq<char>>)
    decreases evs.len(),
{
    if evs.len() == 0 {
        (text, false, None)
    } else {
        let (t, done, err) = received(evs.drop_last(), text);
        match evs.last() {
            AiEvent::Chunk(c) => (t + c@, done, err),
            AiEvent::Done => (t, true, err),
            AiEvent::Error(e) => (t, done, Some(e@)),
        }
    }
}

/// Reported when there is no earlier request to ask again.
pub const NOTHING_TO_REGENERATE: &'static str = "没有可重新生成的请求";

/// The content of the last user message among the first `k` of `ms`, when it
/// is not empty.
pub open spec fn last_request_before(ms: Seq<AiMsg>, k: int) -> Option<Seq<char>>
    decreases k,
{
    if k <= 0 {
        None
    } else if k > ms.len() {
        last_request_before(ms, ms.len() as int)
    } else if ms[k - 1].role@ == ROLE_USER@ {
        if ms[k - 1].content@.len() > 0 {
            Some(ms[k - 1].content@)
        } else {
            None
        }
    } else {
        last_request_before(ms, k - 1)
    }
}

impl AiSession {
    /// An empty conversation with nothing streaming.
    pub fn new() -> (r: AiSession)
        ensures
            r.msgs@.len() == 0,
            !r.streaming,
            r.stream_text@.len() == 0,
            r.action@.len() == 0,
            r.error is None,
    {
        AiSession { msgs: Vec::new(), streaming: false, stream_text: String::new(), action: String::new(), error: None }
    }

    /// Starts a request for `action` with `messages`: refused while a reply is
    /// streaming or when `api_key` is blank (the message to show is returned);
    /// otherwise the stream starts empty and the request joins the
    /// conversation as one user message, its contents joined by blank lines
    /// and trimmed.
    pub fn start(&mut self, action: &str, messages: &[(String, String)], api_key: &str) -> (r: Result<(), String>)
        ensures
            old(self).streaming ==> (r matches Err(e) && e@ == AI_BUSY@ && *final(self) == *old(self)),
            !old(self).streaming && trim(api_key@).len() == 0 ==> (r matches Err(e) && e@ == AI_NO_KEY@
                && *final(self) == *old(self)),
            !old(self).streaming && trim(api_key@).len() > 0 ==> {
                &&& r is Ok
                &&& final(self).streaming
                &&& final(self).stream_text@.len() == 0
                &&& final(self).action@ == action@
                &&& final(self).error is None
                &&& msgs_view(final(self).msgs@) == msgs_view(old(self).msgs@).push(
                    (ROLE_USER@, trim(joined_contents(messages@)), action@),
                )
            },
    {
        if self.streaming {
            return Err(AI_BUSY.to_owned());
        }
        if is_blank(api_key) {
            return Err(AI_NO_KEY.to_owned());
        }
        let mut content = String::new();
        let mut i: usize = 0;
        while i < messages.len()
            invariant
                i <= messages@.len(),
                content@ == joined_contents(messages@.take(i as int)),
            decreases messages.len() - i,
        {
            proof {
                assert(messages@.take(i + 1).drop_last() =~= messages@.take(i as int));
            }
            content.append(messages[i].1.as_str());
            content.append(TURN_SEPARATOR);
            i = i + 1;
        }
        assert(messages@.take(messages@.len() as int) =~= messages@);
        self.streaming = true;
        self.stream_text = String::new();
        self.action = action.to_owned();
        self.error = None;
        let ghost before = msgs_view(self.msgs@);
        self.msgs.push(AiMsg { role: ROLE_USER.to_owned(), content: trim_string(content.as_str()), action: action.to_owned() });
        assert(msgs_view(self.msgs@) =~= before.push((ROLE_USER@, trim(joined_contents(messages@)), action@)));
        Ok(())
    }

    /// The content of the last user message among the first `idx` messages,
    /// if any.
    fn last_request(&self, idx: usize) -> (r: Option<String>)
        ensures
            match last_request_before(self.msgs@, idx as int) {
                Some(c) => r matches Some(s) && s@ == c,
                None => r is None,
            },
    {
        let mut k: usize = if idx < self.msgs.len() { idx } else { self.msgs.len() };
        while k > 0
            invariant
                k <= self.msgs@.len(),
                last_request_before(self.msgs@, idx as int) == last_request_before(self.msgs@, k as int),
            decreases k,
        {
            if str_eq(self.msgs[k - 1].role.as_str(), ROLE_USER) {
                if self.msgs[k - 1].content.as_str().is_empty() {
                    return None;
                }
                return Some(self.msgs[k - 1].content.clone());
            }
            k = k - 1;
        }
        None
    }

    /// Asks again what was asked before message `idx`: the conversation is
    /// cut back to its first `idx` messages and the last user message among
    /// them is sent again as a free conversation. Nothing happens while a
    /// reply streams (`Ok(false)`); without such a request, or when the new
    /// request is refused, the message to show is returned.
    pub fn regenerate(&mut self, idx: usize, api_key: &str) -> (r: Result<bool, String>)
        ensures
            old(self).streaming ==> r == Ok::<bool, String>(false) && *final(self) == *old(self),
            !old(self).streaming ==> match last_request_before(old(self).msgs@, idx as int) {
                None => r matches Err(e) && e@ == NOTHING_TO_REGENERATE@ && *final(self) == *old(self),
                Some(c) => {
                    let kept = if idx < old(self).msgs@.len() { old(self).msgs@.take(idx as int) } else { old(self).msgs@ };
                    if trim(api_key@).len() == 0 {
                        &&& r matches Err(e) && e@ == AI_NO_KEY@
                        &&& final(self).msgs@ == kept
                        &&& !final(self).streaming
                    } else {
                        &&& r == Ok::<bool, String>(true)
                        &&& final(self).streaming
                        &&& final(self).action@ == action_name(crate::shell::Command::Save)
                        &&& msgs_view(final(self).msgs@) == msgs_view(kept).push((ROLE_USER@, trim(c + TURN_SEPARATOR@), final(self).action@))
                    }
                },
            },
    {
        if self.streaming {
            return Ok(false);
        }
        let content = match self.last_request(idx) {
            Some(c) => c,
            None => return Err(NOTHING_TO_REGENERATE.to_owned()),
        };
        self.msgs.truncate(idx);
        let msgs = vec![(ROLE_USER.to_owned(), content)];
        let action = crate::assistant::action_label(&crate::shell::Command::Save);
        proof {
            assert(joined_contents(msgs@) =~= joined_contents(msgs@.drop_last()) + msgs@.last().1@ + TURN_SEPARATOR@);
            assert(msgs@.drop_last() =~= Seq::<(String, String)>::empty());
        }
        match self.start(action.as_str(), msgs.as_slice(), api_key) {
            Ok(()) => Ok(true),
            Err(e) => Err(e),
        }
    }

    /// Takes in the events that arrived. Pieces of the reply are appended to
    /// the streaming text. When the end or an error has come, streaming stops:
    /// an error joins the conversation as an error message, else the reply,
    /// unless blank, as the assistant's message; the action is cleared.
    /// Nothing changes while no reply is streaming.
    pub fn receive(&mut self, events: &[AiEvent])
        ensures
            !old(self).streaming ==> *final(self) == *old(self),
            old(self).streaming ==> ({
                let (t, done, err) = received(events@, old(self).stream_text@);
                if done || err is Some {
                    &&& !final(self).streaming
                    &&& final(self).stream_text@.len() == 0
                    &&& final(self).action@.len() == 0
                    &&& final(self).error == old(self).error
                    &&& msgs_view(final(self).msgs@) == match err {
                        Some(e) => msgs_view(old(self).msgs@).push((ROLE_ERROR@, e, old(self).action@)),
                        None => if trim(t).len() > 0 {
                            msgs_view(old(self).msgs@).push((ROLE_ASSISTANT@, t, old(self).action@))
                        } else {
                            msgs_view(old(self).msgs@)
                        },
                    }
                } else {
                    &&& final(self).streaming
                    &&& final(self).stream_text@ == t
                    &&& final(self).action == old(self).action
                    &&& final(self).error == old(self).error
                    &&& final(self).msgs == old(self).msgs
                }
            }),
    {
        if !self.streaming {
            return;
        }
        let mut done = false;
        let mut error: Option<String> = None;
        let mut i: usize = 0;
        while i < events.len()
            invariant
                i <= events@.len(),
                self.streaming == old(self).streaming,
                self.action == old(self).action,
                self.error == old(self).error,
                self.msgs == old(self).msgs,
                received(events@.take(i as int), old(self).stream_text@) == (self.stream_text@, done, match error {
                    Some(e) => Some(e@),
                    None => None,
                }),
            decreases events.len() - i,
        {
            proof {
                assert(events@.take(i + 1).drop_last() =~= events@.take(i as int));
            }
            match &events[i] {
                AiEvent::Chunk(t) => {
                    self.stream_text.append(t.as_str());
                },
                AiEvent::Done => {
                    done = true;
                },
                AiEvent::Error(e) => {
                    error = Some(e.clone());
                },
            }
            i = i + 1;
        }
        assert(events@.take(events@.len() as int) =~= events@);
        if done || error.is_some() {
            self.streaming = false;
            let mut content = String::new();
            std::mem::swap(&mut content, &mut self.stream_text);
            let ghost before = msgs_view(self.msgs@);
            match error {
                Some(e) => {
                    self.msgs.push(AiMsg { role: ROLE_ERROR.to_owned(), content: e, action: self.action.clone() });
                    assert(msgs_view(self.msgs@) =~= before.push((ROLE_ERROR@, e@, self.action@)));
                },
                None => {
                    if !is_blank(content.as_str()) {
                        self.msgs.push(AiMsg { role: ROLE_ASSISTANT.to_owned(), content, action: self.action.clone() });
                        assert(msgs_view(self.msgs@) =~= before.push((ROLE_ASSISTANT@, content@, self.action@)));
                    }
                },
            }
            self.action = String::new();
        }
    }
}

} // verus!
