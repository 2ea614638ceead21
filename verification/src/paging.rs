//! Paginated lists of the bot's commands: how many pages a list has, what a
//! page shows, how reactions turn the pages, and which requests a command
//! refuses.

use vstd::prelude::*;
use vstd::string::*;
use crate::text::{dec, push_dec, push_str, str_eq};

verus! {

/// How the items of a list are laid out on its pages.
#[derive(Debug, Clone, Copy, PartialEq, Eq, Structural)]
pub enum PageLayout {
    /// A number of items per page.
    Standard { items_per_page: usize },
    /// Items in numbered chunks, a number of chunks per page.
    Chunked { chunk_size: usize, chunks_per_page: usize },
}

/// When a page shows "Page x of y".
#[derive(Debug, Clone, Copy, PartialEq, Eq, Structural)]
pub enum ShowPageCount {
    Always,
    WhenSeveralPages,
    Never,
}

/// Who may turn the pages.
#[derive(Debug, Clone, Copy, PartialEq, Eq, Structural)]
pub enum PageChangePermission {
    Interactor,
    Everyone,
}

/// A group of commands.
#[derive(Debug)]
pub struct InteractionGroup {
    pub name: String,
}

/// A permission of a command for a role or user.
#[derive(Debug, Clone, Copy, PartialEq, Eq, Structural)]
pub struct InteractionPermission {
    pub id: u64,
    pub permission_type: u32,
    pub permission: bool,
}

/// The emoji of a reaction, as far as paging tells them apart.
#[derive(Debug, Clone, Copy, PartialEq, Eq, Structural)]
pub enum PageEmoji {
    Left,
    Right,
    Other,
}

/// A reaction: the message it is on, who made it (if known), its emoji.
#[derive(Debug, Clone, Copy, PartialEq, Eq, Structural)]
pub struct Reaction {
    pub message_id: u64,
    pub user_id: Option<u64>,
    pub emoji: PageEmoji,
}

/// A change to the reactions of a channel.
#[derive(Debug, Clone, Copy, PartialEq, Eq, Structural)]
pub enum ReactionUpdate {
    Added(Reaction),
    Removed(Reaction),
    Wiped(u64, u64),
}

/// A message: its id, channel, author and text.
#[derive(Debug)]
pub struct ChatMessage {
    pub id: u64,
    pub channel_id: u64,
    pub author: u64,
    pub content: String,
}

/// A change to the messages of a channel.
#[derive(Debug)]
pub enum MessageUpdate {
    Sent(ChatMessage),
    Edited(ChatMessage),
    Deleted(u64),
}

/// `n / d` rounded up.
pub open spec fn ceil_div(n: nat, d: nat) -> nat
    recommends
        d > 0,
{
    ((n + d - 1) / (d as int)) as nat
}

/// The number of items a page holds.
pub open spec fn page_capacity(layout: PageLayout) -> nat {
    match layout {
        PageLayout::Standard { items_per_page } => items_per_page as nat,
        PageLayout::Chunked { chunk_size, chunks_per_page } => (chunk_size * chunks_per_page) as nat,
    }
}

/// The number of pages that `len` items take.
pub open spec fn pages_for(len: nat, layout: PageLayout) -> nat {
    ceil_div(len, page_capacity(layout))
}

/// A layout whose pages hold at least one item.
pub open spec fn layout_ok(layout: PageLayout) -> bool {
    match layout {
        PageLayout::Standard { items_per_page } => items_per_page > 0,
        PageLayout::Chunked { chunk_size, chunks_per_page } => chunk_size > 0 && chunks_per_page
            > 0 && chunk_size * chunks_per_page <= usize::MAX,
    }
}

/// The number of pages that `len` items take.
pub fn required_pages(len: usize, layout: PageLayout) -> (r: usize)
    requires
        layout_ok(layout),
    ensures
        r == pages_for(len as nat, layout),
{
    let cap: usize = match layout {
        PageLayout::Standard { items_per_page } => items_per_page,
        PageLayout::Chunked { chunk_size, chunks_per_page } => {
            assert(chunk_size * chunks_per_page > 0) by (nonlinear_arith)
                requires
                    chunk_size > 0,
                    chunks_per_page > 0,
            ;
            chunk_size * chunks_per_page
        },
    };
    assert(cap as nat == page_capacity(layout));
    let q: usize = len / cap;
    let r: usize = if len % cap == 0 {
        q
    } else {
        assert(q < len) by (nonlinear_arith)
            requires
                q == len / cap,
                len % cap != 0,
                cap > 0,
        ;
        q + 1
    };
    proof {
        let n: int = len as int;
        let d: int = cap as int;
        let qq: int = n / d;
        let rr: int = n % d;
        assert(n == qq * d + rr && 0 <= rr < d) by {
            vstd::arithmetic::div_mod::lemma_fundamental_div_mod(n, d);
            vstd::arithmetic::div_mod::lemma_mod_bound(n, d);
            vstd::arithmetic::mul::lemma_mul_is_commutative(d, qq);
        }
        if rr == 0 {
            vstd::arithmetic::div_mod::lemma_fundamental_div_mod_converse(n + d - 1, d, qq, d - 1);
        } else {
            assert(n + d - 1 == (qq + 1) * d + (rr - 1)) by {
                vstd::arithmetic::mul::lemma_mul_is_distributive_add_other_way(d, qq, 1);
            }
            vstd::arithmetic::div_mod::lemma_fundamental_div_mod_converse(
                n + d - 1,
                d,
                qq + 1,
                rr - 1,
            );
        }
    }
    r
}

/// The items that page `page` (from 1) of a standard layout shows: from
/// `(page - 1) * per_page`, at most `per_page` of them.
pub open spec fn standard_page(len: nat, per_page: nat, page: nat) -> (nat, nat) {
    let start: int = (page - 1) * per_page;
    let s: int = if start <= len {
        start
    } else {
        len as int
    };
    let e: int = if s + per_page <= len {
        s + per_page
    } else {
        len as int
    };
    (s as nat, e as nat)
}

/// The range of items that page `page` of a standard layout shows.
pub fn page_items(len: usize, per_page: usize, page: usize) -> (r: (usize, usize))
    requires
        page >= 1,
        (page - 1) * per_page <= usize::MAX,
    ensures
        (r.0 as nat, r.1 as nat) == standard_page(len as nat, per_page as nat, page as nat),
{
    let start = (page - 1) * per_page;
    let s = if start <= len {
        start
    } else {
        len
    };
    let e = if len - s >= per_page {
        s + per_page
    } else {
        len
    };
    (s, e)
}

/// The label of chunk `i` (from 0) of `chunk_len` items, chunks of
/// `chunk_size`: the numbers of its first and last items, from 1.
pub open spec fn chunk_label(i: nat, chunk_size: nat, chunk_len: nat) -> Seq<char> {
    dec(i * chunk_size + 1) + "-"@ + dec(i * chunk_size + chunk_len)
}

/// A chunk that a page shows: its label and the range of its items.
#[derive(Debug)]
pub struct PageChunk {
    pub label: String,
    pub start: usize,
    pub end: usize,
}

/// The chunks of `len` items that page `page` (from 1) of a chunked layout
/// shows, in order: chunks `(page - 1) * per_page` up to `per_page` of them;
/// a chunk has `size` items, the last one the rest.
pub open spec fn chunk_range(len: nat, size: nat, k: nat) -> (nat, nat) {
    let s: nat = k * size;
    let e: nat = if s + size <= len {
        s + size
    } else {
        len
    };
    (s, e)
}

/// The chunks that page `page` of a chunked layout shows.
pub fn page_chunks(len: usize, chunk_size: usize, per_page: usize, page: usize) -> (r: Vec<PageChunk>)
    requires
        chunk_size > 0,
        page >= 1,
        (page - 1) * per_page + per_page <= usize::MAX,
        len + chunk_size <= usize::MAX,
    ensures
        ({
            let chunks = ceil_div(len as nat, chunk_size as nat);
            let first = (page - 1) * per_page;
            let count = if first >= chunks {
                0
            } else if chunks - first >= per_page {
                per_page as int
            } else {
                chunks - first
            };
            r@.len() == count && forall|j: int|
                #![trigger r@[j]]
                0 <= j < r@.len() ==> {
                    let k = (first + j) as nat;
                    let (s, e) = chunk_range(len as nat, chunk_size as nat, k);
                    r@[j].start == s && r@[j].end == e && r@[j].label@ == chunk_label(
                        k,
                        chunk_size as nat,
                        (e - s) as nat,
                    )
                }
        }),
{
    let chunks = len / chunk_size + if len % chunk_size == 0 {
        0
    } else {
        1
    };
    proof {
        let n = len as int;
        let d = chunk_size as int;
        assert((n + d - 1) / d == n / d + (if n % d == 0 {
            0int
        } else {
            1int
        })) by (nonlinear_arith)
            requires
                d > 0,
                n >= 0,
        ;
    }
    let first = (page - 1) * per_page;
    let mut r: Vec<PageChunk> = Vec::new();
    let mut j: usize = 0;
    let count = if first >= chunks {
        0
    } else if chunks - first >= per_page {
        per_page
    } else {
        chunks - first
    };
    while j < count
        invariant
            j <= count,
            count <= per_page,
            count > 0 ==> first + count <= chunks,
            chunks == ceil_div(len as nat, chunk_size as nat),
            chunk_size > 0,
            first == (page - 1) * per_page,
            (page - 1) * per_page + per_page <= usize::MAX,
            len + chunk_size <= usize::MAX,
            r@.len() == j,
            forall|i: int|
                #![trigger r@[i]]
                0 <= i < j ==> {
                    let k = (first + i) as nat;
                    let (s, e) = chunk_range(len as nat, chunk_size as nat, k);
                    r@[i].start == s && r@[i].end == e && r@[i].label@ == chunk_label(
                        k,
                        chunk_size as nat,
                        (e - s) as nat,
                    )
                },
        decreases count - j,
    {
        let k = first + j;
        proof {
            let n = len as int;
            let d = chunk_size as int;
            let kk = k as int;
            assert(k < chunks);
            assert(kk * d < n) by (nonlinear_arith)
                requires
                    kk < (n + d - 1) / d,
                    d > 0,
                    n >= 0,
                    kk >= 0,
            ;
        }
        let s = k * chunk_size;
        let e = if len - s >= chunk_size {
            s + chunk_size
        } else {
            len
        };
        let mut label = String::new();
        push_dec(&mut label, (s + 1) as u64);
        push_str(&mut label, "-");
        push_dec(&mut label, e as u64);
        proof {
            reveal_strlit("-");
        }
        let ghost prev = r@;
        let ghost lv = label@;
        assert(chunk_range(len as nat, chunk_size as nat, k as nat) == (s as nat, e as nat));
        assert(lv == chunk_label(k as nat, chunk_size as nat, (e - s) as nat));
        r.push(PageChunk { label, start: s, end: e });
        assert forall|i: int| #![trigger r@[i]] 0 <= i < j + 1 implies {
            let k = (first + i) as nat;
            let (s, e) = chunk_range(len as nat, chunk_size as nat, k);
            r@[i].start == s && r@[i].end == e && r@[i].label@ == chunk_label(
                k,
                chunk_size as nat,
                (e - s) as nat,
            )
        } by {
            if i < j {
                assert(r@[i] == prev[i]);
            }
        }
        j += 1;
    }
    r
}

/// The footer of page `page` of `pages`: shown always, when there are
/// several pages, or never.
pub open spec fn footer_text(show: ShowPageCount, page: nat, pages: nat) -> Option<Seq<char>> {
    let text = "Page "@ + dec(page) + " of "@ + dec(pages);
    match show {
        ShowPageCount::Always => Some(text),
        ShowPageCount::WhenSeveralPages => if pages > 1 {
            Some(text)
        } else {
            None
        },
        ShowPageCount::Never => None,
    }
}

/// The footer of page `page` of `pages`.
pub fn page_footer(show: ShowPageCount, page: usize, pages: usize) -> (r: Option<String>)
    ensures
        match r {
            Some(t) => footer_text(show, page as nat, pages as nat) == Some(t@),
            None => footer_text(show, page as nat, pages as nat) is None,
        },
{
    let visible = match show {
        ShowPageCount::Always => true,
        ShowPageCount::WhenSeveralPages => pages > 1,
        ShowPageCount::Never => false,
    };
    if !visible {
        return None;
    }
    let mut t = String::new();
    push_str(&mut t, "Page ");
    push_dec(&mut t, page as u64);
    push_str(&mut t, " of ");
    push_dec(&mut t, pages as u64);
    proof {
        reveal_strlit("Page ");
        reveal_strlit(" of ");
    }
    Some(t)
}

/// What a reaction does to a paginated list.
#[derive(Debug, Clone, Copy, PartialEq, Eq, Structural)]
pub enum PageAction {
    /// Nothing.
    Ignore,
    /// The reaction is removed and nothing else happens.
    RemoveReaction,
    /// The reaction is removed and the list shows page `page`.
    Turn(usize),
}

/// The page before `page`, the last one before the first.
pub open spec fn previous_page(page: nat, pages: nat) -> nat {
    if page <= 1 {
        pages
    } else {
        (page - 1) as nat
    }
}

/// The page after `page`, the first one after the last.
pub open spec fn next_page(page: nat, pages: nat) -> nat {
    if page + 1 > pages {
        1
    } else {
        page + 1
    }
}

/// The state of a displayed list: its message, who asked for it, the bot,
/// who may turn pages, its number of pages and the page it shows.
#[derive(Debug)]
pub struct Pager {
    pub message_id: u64,
    pub interactor: u64,
    pub app_id: u64,
    pub permission: PageChangePermission,
    pub pages: usize,
    pub page: usize,
}

/// What a reaction update does: only an added reaction on the list's message
/// counts; the bot's own reactions are ignored; a reaction of someone else
/// than the interactor is removed when only the interactor may turn pages;
/// the arrows turn the page, wrapping around, and are removed; other
/// reactions are ignored.
pub open spec fn reacted(p: Pager, u: ReactionUpdate) -> (nat, PageAction) {
    match u {
        ReactionUpdate::Added(r) => if r.message_id != p.message_id {
            (p.page as nat, PageAction::Ignore)
        } else if r.user_id == Some(p.app_id) {
            (p.page as nat, PageAction::Ignore)
        } else if p.permission == PageChangePermission::Interactor && r.user_id is Some
            && r.user_id != Some(p.interactor) {
            (p.page as nat, PageAction::RemoveReaction)
        } else {
            match r.emoji {
                PageEmoji::Left => {
                    let n = previous_page(p.page as nat, p.pages as nat);
                    (n, PageAction::Turn(n as usize))
                },
                PageEmoji::Right => {
                    let n = next_page(p.page as nat, p.pages as nat);
                    (n, PageAction::Turn(n as usize))
                },
                PageEmoji::Other => (p.page as nat, PageAction::Ignore),
            }
        },
        _ => (p.page as nat, PageAction::Ignore),
    }
}

/// Who may turn the pages: when everyone may, an arrow that anyone but the
/// bot adds on the list's message turns the page, right to the next page
/// (the first after the last) and left to the previous one (the last before
/// the first); when only the interactor may, the interactor's arrows turn
/// the page the same way and another user's reactions are removed.
pub proof fn lemma_arrows_turn_pages(p: Pager, r: Reaction)
    requires
        1 <= p.page <= p.pages,
        r.message_id == p.message_id,
        r.user_id != Some(p.app_id),
        p.permission == PageChangePermission::Everyone || r.user_id is None || r.user_id == Some(
            p.interactor,
        ),
    ensures
        r.emoji == PageEmoji::Right ==> {
            let n: nat = if p.page < p.pages {
                (p.page + 1) as nat
            } else {
                1
            };
            reacted(p, ReactionUpdate::Added(r)) == (n, PageAction::Turn(n as usize))
        },
        r.emoji == PageEmoji::Left ==> {
            let n: nat = if p.page > 1 {
                (p.page - 1) as nat
            } else {
                p.pages as nat
            };
            reacted(p, ReactionUpdate::Added(r)) == (n, PageAction::Turn(n as usize))
        },
        r.emoji == PageEmoji::Other ==> reacted(p, ReactionUpdate::Added(r)) == (
            p.page as nat,
            PageAction::Ignore,
        ),
{
}

/// Only arrows added on the list's message by someone other than the bot do
/// anything: reactions on other messages, the bot's own reactions, and
/// removed or wiped reactions leave the page as it is and are ignored.
pub proof fn lemma_other_reactions_ignored(p: Pager, u: ReactionUpdate)
    ensures
        (u matches ReactionUpdate::Added(r) && (r.message_id != p.message_id || r.user_id == Some(
            p.app_id,
        ))) ==> reacted(p, u) == (p.page as nat, PageAction::Ignore),
        !(u is Added) ==> reacted(p, u) == (p.page as nat, PageAction::Ignore),
{
}

/// When only the interactor may turn the pages, a reaction that another
/// known user adds on the list's message is removed and the page stays.
pub proof fn lemma_others_cannot_turn(p: Pager, r: Reaction, u: u64)
    requires
        p.permission == PageChangePermission::Interactor,
        r.message_id == p.message_id,
        r.user_id == Some(u),
        u != p.app_id,
        u != p.interactor,
    ensures
        reacted(p, ReactionUpdate::Added(r)) == (p.page as nat, PageAction::RemoveReaction),
{
}

impl Pager {
    pub open spec fn wf(&self) -> bool {
        1 <= self.page <= self.pages
    }

    /// A list of `pages` pages on message `message_id`, showing its first page.
    pub fn new(message_id: u64, interactor: u64, app_id: u64, permission: PageChangePermission, pages: usize) -> (r:
        Pager)
        requires
            pages >= 1,
        ensures
            r.wf(),
            r.page == 1 && r.pages == pages && r.message_id == message_id && r.interactor
                == interactor && r.app_id == app_id && r.permission == permission,
    {
        Pager { message_id, interactor, app_id, permission, pages, page: 1 }
    }

    /// Handles a reaction update: returns what to do.
    pub fn on_reaction(&mut self, update: ReactionUpdate) -> (r: PageAction)
        requires
            old(self).wf(),
        ensures
            final(self).wf(),
            reacted(*old(self), update) == (final(self).page as nat, r),
            final(self).pages == old(self).pages && final(self).message_id == old(self).message_id
                && final(self).interactor == old(self).interactor && final(self).app_id == old(
                self,
            ).app_id && final(self).permission == old(self).permission,
    {
        let r = match update {
            ReactionUpdate::Added(r) => r,
            _ => {
                return PageAction::Ignore;
            },
        };
        if r.message_id != self.message_id {
            return PageAction::Ignore;
        }
        match r.user_id {
            Some(user) => {
                if user == self.app_id {
                    return PageAction::Ignore;
                }
                match self.permission {
                    PageChangePermission::Interactor => {
                        if user != self.interactor {
                            return PageAction::RemoveReaction;
                        }
                    },
                    _ => {},
                }
            },
            None => {},
        }
        match r.emoji {
            PageEmoji::Left => {
                self.page = if self.page <= 1 {
                    self.pages
                } else {
                    self.page - 1
                };
                PageAction::Turn(self.page)
            },
            PageEmoji::Right => {
                self.page = if self.page >= self.pages {
                    1
                } else {
                    self.page + 1
                };
                PageAction::Turn(self.page)
            },
            PageEmoji::Other => PageAction::Ignore,
        }
    }
}

/// Turning back undoes turning forward, and forward undoes back.
pub proof fn lemma_turn_back_and_forth(page: nat, pages: nat)
    requires
        1 <= page <= pages,
    ensures
        previous_page(next_page(page, pages), pages) == page,
        next_page(previous_page(page, pages), pages) == page,
        1 <= next_page(page, pages) <= pages,
        1 <= previous_page(page, pages) <= pages,
{
}

/// Why a check refused a command; the dispatcher itself never knows more.
#[derive(Debug, Clone, Copy, PartialEq, Eq, Structural)]
pub enum CheckReason {
    Unknown,
}

/// Why a command is refused.
#[derive(Debug, Clone, Copy, PartialEq, Eq)]
pub enum DispatchError {
    OnlyForOwners,
    LackingRole,
    BlockedUser,
    BlockedGuild,
    BlockedChannel,
    /// The named check of the command said no.
    CheckFailed { name: &'static str, reason: CheckReason },
    /// A command got fewer arguments than it needs.
    NotEnoughArguments { min: u16, given: usize },
    /// A command got more arguments than it allows.
    TooManyArguments { max: u16, given: usize },
}

/// What the bot says of a refused command in the channel: only a wrong
/// number of arguments is answered.
pub open spec fn dispatch_reply(e: DispatchError) -> Option<Seq<char>> {
    match e {
        DispatchError::NotEnoughArguments { min, given } => Some(
            "Need "@ + dec(min as nat) + " arguments, but only got "@ + dec(given as nat) + "."@,
        ),
        DispatchError::TooManyArguments { max, given } => Some(
            "Max arguments allowed is "@ + dec(max as nat) + ", but got "@ + dec(given as nat)
                + "."@,
        ),
        _ => None,
    }
}

/// The answer to a refused command, if it gets one.
pub fn dispatch_error_reply(e: DispatchError) -> (r: Option<String>)
    ensures
        match (r, dispatch_reply(e)) {
            (Some(a), Some(b)) => a@ == b,
            (None, None) => true,
            _ => false,
        },
{
    match e {
        DispatchError::NotEnoughArguments { min, given } => {
            let mut s = String::new();
            push_str(&mut s, "Need ");
            push_dec(&mut s, min as u64);
            push_str(&mut s, " arguments, but only got ");
            push_dec(&mut s, given as u64);
            push_str(&mut s, ".");
            Some(s)
        },
        DispatchError::TooManyArguments { max, given } => {
            let mut s = String::new();
            push_str(&mut s, "Max arguments allowed is ");
            push_dec(&mut s, max as u64);
            push_str(&mut s, ", but got ");
            push_dec(&mut s, given as u64);
            push_str(&mut s, ".");
            Some(s)
        },
        _ => None,
    }
}

/// What the refusal of a command depends on: whether the command is for
/// owners only and the requester is one; the roles the command allows and
/// those the requester has; whether the requester is blocked; the guild of the
/// channel (when it is a guild channel in the cache), whether it is blocked and
/// whether its owner is; the channels that are allowed and the requester's;
/// and the command's checks, each by its name with its outcome, in order.
#[derive(Debug)]
pub struct CommandRequest {
    pub owners_only: bool,
    pub requester_is_owner: bool,
    pub allowed_roles: Vec<u64>,
    pub member_roles: Vec<u64>,
    pub requester_blocked: bool,
    pub guild_blocked: Option<bool>,
    pub guild_owner_blocked: Option<bool>,
    pub allowed_channels: Vec<u64>,
    pub channel: u64,
    pub checks: Vec<(&'static str, bool)>,
}

/// The name of the first check, from the `k`-th on, that did not pass.
pub open spec fn first_failed_check(checks: Seq<(&'static str, bool)>, k: int) -> Option<
    &'static str,
>
    decreases checks.len() - k,
{
    if k < 0 || k >= checks.len() {
        None
    } else if !checks[k].1 {
        Some(checks[k].0)
    } else {
        first_failed_check(checks, k + 1)
    }
}

/// Why the request is refused, checked in this order: owners only (which
/// alone decides), lacking role, blocked user, blocked guild or guild owner,
/// blocked channel, failed check.
pub open spec fn refusal(q: CommandRequest) -> Option<DispatchError> {
    if q.owners_only {
        if q.requester_is_owner {
            None
        } else {
            Some(DispatchError::OnlyForOwners)
        }
    } else if q.allowed_roles@.len() > 0 && !(exists|i: int|
        0 <= i < q.allowed_roles@.len() && q.member_roles@.contains(q.allowed_roles@[i])) {
        Some(DispatchError::LackingRole)
    } else if q.requester_blocked {
        Some(DispatchError::BlockedUser)
    } else if q.guild_blocked == Some(true) || q.guild_owner_blocked == Some(true) {
        Some(DispatchError::BlockedGuild)
    } else if q.allowed_channels@.len() > 0 && !q.allowed_channels@.contains(q.channel) {
        Some(DispatchError::BlockedChannel)
    } else {
        match first_failed_check(q.checks@, 0) {
            Some(name) => Some(DispatchError::CheckFailed { name, reason: CheckReason::Unknown }),
            None => None,
        }
    }
}

fn contains_u64(v: &Vec<u64>, x: u64) -> (r: bool)
    ensures
        r == v@.contains(x),
{
    let mut i: usize = 0;
    while i < v.len()
        invariant
            i <= v.len(),
            forall|j: int| 0 <= j < i ==> v@[j] != x,
        decreases v.len() - i,
    {
        if v[i] == x {
            assert(v@[i as int] == x);
            return true;
        }
        i += 1;
    }
    false
}

/// Why the request is refused, if it is.
pub fn should_fail(q: &CommandRequest) -> (r: Option<DispatchError>)
    ensures
        r == refusal(*q),
{
    if q.owners_only {
        if q.requester_is_owner {
            return None;
        } else {
            return Some(DispatchError::OnlyForOwners);
        }
    }
    if q.allowed_roles.len() > 0 {
        let mut i: usize = 0;
        let mut matched = false;
        while i < q.allowed_roles.len()
            invariant
                i <= q.allowed_roles.len(),
                matched == exists|k: int|
                    0 <= k < i && q.member_roles@.contains(q.allowed_roles@[k]),
            decreases q.allowed_roles.len() - i,
        {
            if contains_u64(&q.member_roles, q.allowed_roles[i]) {
                matched = true;
            }
            i += 1;
        }
        if !matched {
            return Some(DispatchError::LackingRole);
        }
    }
    if q.requester_blocked {
        return Some(DispatchError::BlockedUser);
    }
    if q.guild_blocked == Some(true) || q.guild_owner_blocked == Some(true) {
        return Some(DispatchError::BlockedGuild);
    }
    if q.allowed_channels.len() > 0 && !contains_u64(&q.allowed_channels, q.channel) {
        return Some(DispatchError::BlockedChannel);
    }
    assert(refusal(*q) == match first_failed_check(q.checks@, 0) {
        Some(name) => Some(DispatchError::CheckFailed { name, reason: CheckReason::Unknown }),
        None => None,
    });
    let mut k: usize = 0;
    while k < q.checks.len()
        invariant
            k <= q.checks.len(),
            first_failed_check(q.checks@, 0) == first_failed_check(q.checks@, k as int),
            refusal(*q) == match first_failed_check(q.checks@, 0) {
                Some(name) => Some(DispatchError::CheckFailed { name, reason: CheckReason::Unknown }),
                None => None,
            },
        decreases q.checks.len() - k,
    {
        let (name, passed) = q.checks[k];
        if !passed {
            assert(first_failed_check(q.checks@, k as int) == Some(name));
            return Some(DispatchError::CheckFailed { name, reason: CheckReason::Unknown });
        }
        k += 1;
    }
    None
}

/// A slash command of a guild: its name, the id Discord gave it once it was
/// uploaded, and its permissions.
#[derive(Debug)]
pub struct RegisteredInteraction {
    pub name: String,
    pub command_id: Option<u64>,
    pub permissions: Vec<InteractionPermission>,
}

pub open spec fn registered_views(v: Seq<RegisteredInteraction>) -> Seq<(Seq<char>, Option<u64>)> {
    v.map_values(|c: RegisteredInteraction| (c.name@, c.command_id))
}

/// The first command named `name`.
pub open spec fn first_named(s: Seq<(Seq<char>, Option<u64>)>, name: Seq<char>) -> Option<int>
    decreases s.len(),
{
    if s.len() == 0 {
        None
    } else if s[0].0 == name {
        Some(0)
    } else {
        match first_named(s.drop_first(), name) {
            Some(i) => Some(i + 1),
            None => None,
        }
    }
}

proof fn lemma_first_named(s: Seq<(Seq<char>, Option<u64>)>, name: Seq<char>)
    ensures
        match first_named(s, name) {
            Some(i) => 0 <= i < s.len() && s[i].0 == name && forall|j: int|
                0 <= j < i ==> s[j].0 != name,
            None => forall|j: int| 0 <= j < s.len() ==> s[j].0 != name,
        },
    decreases s.len(),
{
    if s.len() > 0 && s[0].0 != name {
        let t = s.drop_first();
        lemma_first_named(t, name);
        assert forall|j: int| 0 < j < s.len() implies s[j] == t[j - 1] by {}
    }
}

/// The commands after Discord answered an upload with `returned`: each
/// returned command gives its id to the first command of that name.
pub open spec fn after_upload(
    s: Seq<(Seq<char>, Option<u64>)>,
    returned: Seq<(Seq<char>, u64)>,
) -> Seq<(Seq<char>, Option<u64>)>
    decreases returned.len(),
{
    if returned.len() == 0 {
        s
    } else {
        let before = after_upload(s, returned.drop_last());
        let (name, id) = returned.last();
        match first_named(before, name) {
            Some(i) => before.update(i, (name, Some(id))),
            None => before,
        }
    }
}

/// Gives the commands the ids of the commands Discord returned, by name.
pub fn record_uploaded(commands: &mut Vec<RegisteredInteraction>, returned: &Vec<(String, u64)>)
    ensures
        registered_views(final(commands)@) == after_upload(
            registered_views(old(commands)@),
            returned@.map_values(|r: (String, u64)| (r.0@, r.1)),
        ),
        forall|j: int|
            0 <= j < old(commands)@.len() ==> (#[trigger] final(commands)@[j]).permissions@
                == old(commands)@[j].permissions@,
{
    let ghost start = registered_views(commands@);
    let ghost rv = returned@.map_values(|r: (String, u64)| (r.0@, r.1));
    let ghost perms = commands@.map_values(|c: RegisteredInteraction| c.permissions@);
    let mut k: usize = 0;
    assert(rv.take(0) =~= Seq::<(Seq<char>, u64)>::empty());
    while k < returned.len()
        invariant
            k <= returned@.len(),
            rv == returned@.map_values(|r: (String, u64)| (r.0@, r.1)),
            registered_views(commands@) == after_upload(start, rv.take(k as int)),
            commands@.len() == perms.len(),
            forall|j: int| 0 <= j < commands@.len() ==> (#[trigger] commands@[j]).permissions@ == perms[j],
        decreases returned@.len() - k,
    {
        let ghost before = registered_views(commands@);
        assert(rv.take(k + 1).drop_last() =~= rv.take(k as int));
        assert(rv.take(k + 1).last() == (returned@[k as int].0@, returned@[k as int].1));
        proof {
            lemma_first_named(before, returned@[k as int].0@);
        }
        let mut i: usize = 0;
        let mut found = false;
        while i < commands.len()
            invariant
                i <= commands@.len(),
                k < returned@.len(),
                before == registered_views(commands@),
                forall|j: int| 0 <= j < i ==> before[j].0 != returned@[k as int].0@,
            ensures
                i <= commands@.len(),
                forall|j: int| 0 <= j < i ==> before[j].0 != returned@[k as int].0@,
                i < commands@.len() ==> before[i as int].0 == returned@[k as int].0@,
            decreases commands@.len() - i,
        {
            if str_eq(commands[i].name.as_str(), returned[k].0.as_str()) {
                assert(before[i as int].0 == commands@[i as int].name@);
                break;
            }
            i += 1;
        }
        if i < commands.len() {
            let ghost old_cmds = commands@;
            let mut c = commands.remove(i);
            c.command_id = Some(returned[k].1);
            commands.insert(i, c);
            proof {
                assert(first_named(before, returned@[k as int].0@) == Some(i as int)) by {
                    lemma_first_named(before, returned@[k as int].0@);
                    if first_named(before, returned@[k as int].0@) != Some(i as int) {
                        let q = first_named(before, returned@[k as int].0@);
                        if q is Some {
                            let qq = q.unwrap();
                            assert(qq < i || qq > i);
                        }
                    }
                }
                assert(commands@ == old_cmds.update(i as int, c));
                assert(registered_views(commands@) =~= before.update(
                    i as int,
                    (returned@[k as int].0@, Some(returned@[k as int].1)),
                ));
            }
        } else {
            proof {
                if first_named(before, returned@[k as int].0@) is Some {
                    let q = first_named(before, returned@[k as int].0@).unwrap();
                    assert(before[q].0 != returned@[k as int].0@);
                }
            }
        }
        k += 1;
    }
    assert(rv.take(k as int) =~= rv);
}

/// How a paginated list is shown: its title, layout, footer, who may turn
/// its pages, how long it answers (seconds) and whether it is deleted then.
#[derive(Debug)]
pub struct PageSettings {
    pub title: Option<String>,
    pub layout: PageLayout,
    pub show_page_count: ShowPageCount,
    pub page_change_perm: PageChangePermission,
    pub timeout_secs: u64,
    pub delete_when_dropped: bool,
}

impl Default for PageSettings {
    fn default() -> (r: PageSettings)
        ensures
            r.title is None,
            r.layout == (PageLayout::Standard { items_per_page: 5 }),
            r.show_page_count == ShowPageCount::WhenSeveralPages,
            r.page_change_perm == PageChangePermission::Everyone,
            r.timeout_secs == 900,
            !r.delete_when_dropped,
    {
        PageSettings {
            title: None,
            layout: PageLayout::Standard { items_per_page: 5 },
            show_page_count: ShowPageCount::WhenSeveralPages,
            page_change_perm: PageChangePermission::Everyone,
            timeout_secs: 900,
            delete_when_dropped: false,
        }
    }
}

/// The colour of a paginated list's embed.
pub const LIST_COLOUR: u32 = 6_282_735;

pub open spec fn line_views(v: Seq<String>) -> Seq<Seq<char>> {
    v.map_values(|l: String| l@)
}

/// The lines one after the other.
pub open spec fn concat(lines: Seq<Seq<char>>) -> Seq<char>
    decreases lines.len(),
{
    if lines.len() == 0 {
        Seq::empty()
    } else {
        concat(lines.drop_last()) + lines.last()
    }
}

/// The text of the formatted items `start` to `end` (exclusive): a page's
/// description, or a chunk's field.
pub fn join_lines(lines: &Vec<String>, start: usize, end: usize) -> (r: String)
    requires
        start <= end <= lines@.len(),
    ensures
        r@ == concat(line_views(lines@).subrange(start as int, end as int)),
{
    let ghost lv = line_views(lines@);
    let mut s = String::new();
    let mut i: usize = start;
    assert(lv.subrange(start as int, start as int) =~= Seq::<Seq<char>>::empty());
    while i < end
        invariant
            start <= i <= end <= lines@.len(),
            lv == line_views(lines@),
            s@ == concat(lv.subrange(start as int, i as int)),
        decreases end - i,
    {
        push_str(&mut s, lines[i].as_str());
        assert(lv.subrange(start as int, i + 1).drop_last() =~= lv.subrange(start as int, i as int));
        assert(lv.subrange(start as int, i + 1).last() == lines@[i as int]@);
        i += 1;
    }
    s
}

/// How a paginated list begins.
#[derive(Debug, Clone, Copy, PartialEq, Eq, Structural)]
pub enum DisplayStart {
    /// There is nothing to list: the deferred response is deleted and the
    /// list ends.
    DeleteResponse,
    /// Page 1 of the only page is shown and the list ends, with no reactions.
    ShowOnly,
    /// Page 1 of `pages` is shown, the turning reactions are added and a
    /// `Pager` of that many pages handles the reactions.
    Interactive { pages: usize },
}

proof fn lemma_capacity_positive(layout: PageLayout)
    requires
        layout_ok(layout),
    ensures
        page_capacity(layout) > 0,
{
    match layout {
        PageLayout::Standard { items_per_page } => {},
        PageLayout::Chunked { chunk_size, chunks_per_page } => {
            assert(chunk_size * chunks_per_page > 0) by (nonlinear_arith)
                requires
                    chunk_size > 0,
                    chunks_per_page > 0,
            ;
        },
    }
}

/// How a list of `len` items laid out by `layout` begins.
pub fn display_start(len: usize, layout: PageLayout) -> (r: DisplayStart)
    requires
        layout_ok(layout),
    ensures
        len == 0 ==> r == DisplayStart::DeleteResponse,
        len > 0 && pages_for(len as nat, layout) == 1 ==> r == DisplayStart::ShowOnly,
        len > 0 && pages_for(len as nat, layout) > 1 ==> r == (DisplayStart::Interactive {
            pages: pages_for(len as nat, layout) as usize,
        }),
        len > 0 ==> pages_for(len as nat, layout) >= 1,
{
    if len == 0 {
        return DisplayStart::DeleteResponse;
    }
    let pages = required_pages(len, layout);
    proof {
        let d = page_capacity(layout);
        lemma_capacity_positive(layout);
        assert((len + d - 1) / (d as int) >= 1) by (nonlinear_arith)
            requires
                len >= 1,
                d >= 1,
        ;
    }
    if pages == 1 {
        DisplayStart::ShowOnly
    } else {
        DisplayStart::Interactive { pages }
    }
}

/// Whether a list that stops answering (cancelled, or past its timeout)
/// deletes its response: as its settings say.
pub fn deletes_when_closed(settings: &PageSettings) -> (r: bool)
    ensures
        r == settings.delete_when_dropped,
{
    settings.delete_when_dropped
}

} // verus!
