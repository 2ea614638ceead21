//! The bot's configuration records that its logic reads: talents, branches and
//! reminders.

use vstd::prelude::*;

verus! {

/// A branch of the agency.
#[derive(Debug, Clone, Copy, PartialEq, Eq, Structural)]
pub enum HoloBranch {
    HoloJP,
    HoloID,
    HoloEN,
    HolostarsJP,
}

/// A talent that the bot follows.
#[derive(Debug)]
pub struct Talent {
    pub name: String,
    pub english_name: String,
    pub emoji: String,
    pub icon: String,
    pub colour: u32,
    pub branch: HoloBranch,
    pub discord_role: Option<u64>,
    pub youtube_ch_id: Option<String>,
    pub twitter_id: Option<u64>,
    pub twitter_handle: Option<String>,
    pub schedule_keyword: Option<String>,
}

pub struct TalentView {
    pub name: Seq<char>,
    pub english_name: Seq<char>,
    pub emoji: Seq<char>,
    pub icon: Seq<char>,
    pub colour: u32,
    pub branch: HoloBranch,
    pub discord_role: Option<u64>,
    pub youtube_ch_id: Option<Seq<char>>,
    pub twitter_id: Option<u64>,
    pub twitter_handle: Option<Seq<char>>,
    pub schedule_keyword: Option<Seq<char>>,
}

pub open spec fn opt_str_view(o: Option<String>) -> Option<Seq<char>> {
    match o {
        Some(s) => Some(s@),
        None => None,
    }
}

impl View for Talent {
    type V = TalentView;

    open spec fn view(&self) -> TalentView {
        TalentView {
            name: self.name@,
            english_name: self.english_name@,
            emoji: self.emoji@,
            icon: self.icon@,
            colour: self.colour,
            branch: self.branch,
            discord_role: self.discord_role,
            youtube_ch_id: opt_str_view(self.youtube_ch_id),
            twitter_id: self.twitter_id,
            twitter_handle: opt_str_view(self.twitter_handle),
            schedule_keyword: opt_str_view(self.schedule_keyword),
        }
    }
}

/// A copy of an optional string.
pub fn copy_opt_str(o: &Option<String>) -> (r: Option<String>)
    ensures
        opt_str_view(r) == opt_str_view(*o),
{
    match o {
        Some(s) => Some(s.clone()),
        None => None,
    }
}

impl Talent {
    /// A copy of the talent.
    pub fn copy(&self) -> (r: Talent)
        ensures
            r@ == self@,
    {
        Talent {
            name: self.name.clone(),
            english_name: self.english_name.clone(),
            emoji: self.emoji.clone(),
            icon: self.icon.clone(),
            colour: self.colour,
            branch: self.branch,
            discord_role: self.discord_role,
            youtube_ch_id: copy_opt_str(&self.youtube_ch_id),
            twitter_id: self.twitter_id,
            twitter_handle: copy_opt_str(&self.twitter_handle),
            schedule_keyword: copy_opt_str(&self.schedule_keyword),
        }
    }
}


/// How often a reminder repeats.
#[derive(Debug, Clone, Copy, PartialEq, Eq, Structural)]
pub enum ReminderFrequency {
    Once,
    Daily,
    Weekly,
    Monthly,
    Yearly,
}

/// Where a subscriber of a reminder is reminded.
#[derive(Debug, Clone, Copy, PartialEq, Eq, Structural)]
pub enum ReminderLocation {
    DM,
    Channel(u64),
}

/// A user to remind, and where.
#[derive(Debug, Clone, Copy, PartialEq, Eq, Structural)]
pub struct ReminderSubscriber {
    pub user: u64,
    pub location: ReminderLocation,
}

/// A reminder: its id, message, next time (milliseconds since the epoch),
/// how often it repeats, and whom it reminds.
#[derive(Debug)]
pub struct Reminder {
    pub id: u32,
    pub message: String,
    pub time: i64,
    pub frequency: ReminderFrequency,
    pub subscribers: Vec<ReminderSubscriber>,
}

impl Reminder {
    /// A copy of the reminder.
    pub fn copy(&self) -> (r: Reminder)
        ensures
            r.id == self.id && r.message@ == self.message@ && r.time == self.time && r.frequency
                == self.frequency && r.subscribers@ == self.subscribers@,
    {
        let mut subs: Vec<ReminderSubscriber> = Vec::new();
        let mut i: usize = 0;
        while i < self.subscribers.len()
            invariant
                i <= self.subscribers.len(),
                subs@ == self.subscribers@.take(i as int),
            decreases self.subscribers.len() - i,
        {
            subs.push(self.subscribers[i]);
            assert(subs@ =~= self.subscribers@.take(i + 1));
            i += 1;
        }
        assert(self.subscribers@.take(i as int) =~= self.subscribers@);
        Reminder {
            id: self.id,
            message: self.message.clone(),
            time: self.time,
            frequency: self.frequency,
            subscribers: subs,
        }
    }
}

/// The imgflip account that creates memes.
#[derive(Debug)]
pub struct MemeCreationConfig {
    pub imgflip_user: String,
    pub imgflip_pass: String,
}

} // verus!
