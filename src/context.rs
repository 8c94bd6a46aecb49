//! What a handler can ask for: the message as plain values, the data that
//! the application registered, and which parameters an event can supply.

use vstd::prelude::*;

use crate::args::ArgShape;
use crate::text::{after_word, chars_of, is_blank_char, lemma_word_step};

verus! {

/// The kind of media a message carries.
#[derive(PartialEq, Eq, Structural, Clone, Copy, Debug)]
pub enum MediaKind {
    Photo,
    Document,
    Sticker,
    /// Any other media (a poll, a location, a contact, ...).
    Other,
}

/// The kind of chat a message was sent in.
#[derive(PartialEq, Eq, Structural, Clone, Copy, Debug)]
pub enum ChatKind {
    User,
    Group,
    Channel,
}

/// What a message replies to.
#[derive(PartialEq, Eq, Structural, Clone, Copy, Debug)]
pub enum ReplyKind {
    Message,
    Story,
}

/// The parts of a message that decide which handler takes it.
pub struct MessageInfo {
    pub text: String,
    pub media: Option<MediaKind>,
    pub chat: ChatKind,
    pub reply: Option<ReplyKind>,
    pub forwarded: bool,
}

/// A parameter that a handler declares.
#[derive(Clone)]
pub enum Param {
    /// The client handle.
    Client,
    /// The message itself.
    Message,
    /// The message's text.
    Text,
    /// The message's media, of any kind.
    Media,
    Photo,
    Document,
    Sticker,
    /// The header of a reply to a message.
    ReplyHeader,
    /// The header of a reply to a story.
    StoryReplyHeader,
    /// The header of a forwarded message.
    ForwardHeader,
    /// The chat, of any kind.
    Chat,
    /// The chat, when it is a direct chat with a user.
    User,
    /// The chat, when it is a group.
    Group,
    /// The chat, when it is a channel.
    Channel,
    /// The account the bot runs as.
    Me,
    /// Data registered under the tag.
    Data(u64),
    /// The tokens of the command's arguments.
    RawArgs,
    /// The command's arguments, parsed by the shape.
    Args(ArgShape),
}

/// The text of a command's arguments: what follows the first white space of
/// `text`, or nothing when it has none.
pub open spec fn args_text(text: Seq<char>) -> Seq<char> {
    let a = after_word(text);
    if a.len() > 0 {
        a.drop_first()
    } else {
        Seq::empty()
    }
}

/// The text of the arguments of the command `text`.
pub fn args_of(text: &str) -> (r: String)
    ensures
        r@ == args_text(text@),
{
    let cs = chars_of(text);
    let len = cs.len();
    let ghost s = text@;
    let mut i: usize = 0;
    assert(s.skip(0) =~= s);
    while i < len && !is_blank_char(cs[i])
        invariant
            cs@ == s,
            len == cs.len(),
            i <= len,
            after_word(s) == after_word(s.skip(i as int)),
        decreases len - i,
    {
        proof {
            lemma_word_step(s, i as int);
        }
        i += 1;
    }
    proof {
        lemma_word_step(s, i as int);
    }
    if i == len {
        String::new()
    } else {
        assert(s.skip(i as int).drop_first() =~= s.subrange(i + 1, len as int));
        text.substring_char(i + 1, len).to_owned()
    }
}

impl Param {
    pub open spec fn wf(&self) -> bool {
        match self {
            Param::Args(shape) => shape.wf(),
            _ => true,
        }
    }

    /// Whether an event with message `m`, and data registered under the tags
    /// `tags`, supplies this parameter.
    pub open spec fn supplied(&self, m: MessageInfo, tags: Set<u64>) -> bool {
        match self {
            Param::Media => m.media is Some,
            Param::Photo => m.media == Some(MediaKind::Photo),
            Param::Document => m.media == Some(MediaKind::Document),
            Param::Sticker => m.media == Some(MediaKind::Sticker),
            Param::ReplyHeader => m.reply == Some(ReplyKind::Message),
            Param::StoryReplyHeader => m.reply == Some(ReplyKind::Story),
            Param::ForwardHeader => m.forwarded,
            Param::User => m.chat == ChatKind::User,
            Param::Group => m.chat == ChatKind::Group,
            Param::Channel => m.chat == ChatKind::Channel,
            Param::Data(tag) => tags.contains(*tag),
            Param::Args(shape) => shape.accepts(args_text(m.text@)),
            _ => true,
        }
    }
}

impl Param {
    /// Whether the parameter is well formed.
    pub fn is_wf(&self) -> (r: bool)
        ensures
            r == self.wf(),
    {
        match self {
            Param::Args(shape) => shape.is_wf(),
            _ => true,
        }
    }

    /// Whether the event with message `m` and registered data `data` supplies
    /// this parameter.
    pub fn check<V>(&self, m: &MessageInfo, data: &DataStore<V>) -> (r: bool)
        requires
            self.wf(),
        ensures
            r == self.supplied(*m, data.view().dom()),
    {
        match self {
            Param::Media => m.media.is_some(),
            Param::Photo => matches!(m.media, Some(MediaKind::Photo)),
            Param::Document => matches!(m.media, Some(MediaKind::Document)),
            Param::Sticker => matches!(m.media, Some(MediaKind::Sticker)),
            Param::ReplyHeader => matches!(m.reply, Some(ReplyKind::Message)),
            Param::StoryReplyHeader => matches!(m.reply, Some(ReplyKind::Story)),
            Param::ForwardHeader => m.forwarded,
            Param::User => matches!(m.chat, ChatKind::User),
            Param::Group => matches!(m.chat, ChatKind::Group),
            Param::Channel => matches!(m.chat, ChatKind::Channel),
            Param::Data(tag) => data.contains(*tag),
            Param::Args(shape) => {
                let text = args_of(m.text.as_str());
                shape.check(text.as_str())
            },
            _ => true,
        }
    }
}

/// Whether every one of `params` is well formed.
pub fn all_well_formed(params: &Vec<Param>) -> (r: bool)
    ensures
        r == all_wf(params@),
{
    let mut i: usize = 0;
    while i < params.len()
        invariant
            i <= params.len(),
            forall|j: int| 0 <= j < i ==> (#[trigger] params@[j]).wf(),
        decreases params.len() - i,
    {
        if !params[i].is_wf() {
            return false;
        }
        i += 1;
    }
    true
}

/// Whether the event supplies every one of `params`.
pub fn check_all<V>(params: &Vec<Param>, m: &MessageInfo, data: &DataStore<V>) -> (r: bool)
    requires
        all_wf(params@),
    ensures
        r == all_supplied(params@, *m, data.view().dom()),
{
    let mut i: usize = 0;
    while i < params.len()
        invariant
            i <= params.len(),
            all_wf(params@),
            forall|j: int| 0 <= j < i ==> (#[trigger] params@[j]).supplied(*m, data.view().dom()),
        decreases params.len() - i,
    {
        if !params[i].check(m, data) {
            return false;
        }
        i += 1;
    }
    true
}

/// Whether the event supplies every one of `params`.
pub open spec fn all_supplied(params: Seq<Param>, m: MessageInfo, tags: Set<u64>) -> bool {
    forall|i: int| 0 <= i < params.len() ==> (#[trigger] params[i]).supplied(m, tags)
}

/// Whether every one of `params` is well formed.
pub open spec fn all_wf(params: Seq<Param>) -> bool {
    forall|i: int| 0 <= i < params.len() ==> (#[trigger] params[i]).wf()
}

/// A value that the application registered for its handlers.
pub struct Data<T>(pub T);

impl<T> Data<T> {
    /// The value itself.
    pub fn inner(self) -> (r: T)
        ensures
            r == self.0,
    {
        self.0
    }
}

/// The values an application registered for its handlers, one per tag.
/// A tag stands for a type, so that the store needs no key trait of its own.
#[derive(Clone)]
pub struct DataStore<V> {
    entries: Vec<(u64, V)>,
}

/// The map that a list of registrations leaves: a later one under a tag
/// replaces an earlier one.
pub open spec fn map_of<V>(s: Seq<(u64, V)>) -> Map<u64, V>
    decreases s.len(),
{
    if s.len() == 0 {
        Map::empty()
    } else {
        map_of(s.drop_last()).insert(s.last().0, s.last().1)
    }
}

proof fn lemma_map_of_keys<V>(s: Seq<(u64, V)>, k: u64)
    ensures
        map_of(s).contains_key(k) <==> exists|i: int| 0 <= i < s.len() && (#[trigger] s[i]).0 == k,
    decreases s.len(),
{
    if s.len() > 0 {
        lemma_map_of_keys(s.drop_last(), k);
        if map_of(s.drop_last()).contains_key(k) {
            let i = choose|i: int| 0 <= i < s.drop_last().len() && (#[trigger] s.drop_last()[i]).0 == k;
            assert(s[i].0 == k);
        }
        if exists|i: int| 0 <= i < s.len() && (#[trigger] s[i]).0 == k {
            let i = choose|i: int| 0 <= i < s.len() && (#[trigger] s[i]).0 == k;
            if i < s.len() - 1 {
                assert(s.drop_last()[i].0 == k);
            }
        }
    }
}

proof fn lemma_map_of_update<V>(s: Seq<(u64, V)>, i: int, v: V)
    requires
        0 <= i < s.len(),
        forall|a: int, b: int| 0 <= a < b < s.len() ==> (#[trigger] s[a]).0 != (#[trigger] s[b]).0,
    ensures
        map_of(s.update(i, (s[i].0, v))) == map_of(s).insert(s[i].0, v),
    decreases s.len(),
{
    let k = s[i].0;
    let t = s.update(i, (k, v));
    if i == s.len() - 1 {
        assert(t.drop_last() =~= s.drop_last());
        assert(map_of(t) =~= map_of(s).insert(k, v));
    } else {
        assert(t.drop_last() =~= s.drop_last().update(i, (k, v)));
        lemma_map_of_update(s.drop_last(), i, v);
        assert(s.last().0 != k);
        assert(map_of(t) =~= map_of(s).insert(k, v));
    }
}

impl<V> DataStore<V> {
    /// The value registered under each tag.
    pub closed spec fn view(&self) -> Map<u64, V> {
        map_of(self.entries@)
    }

    /// No tag is listed twice.
    pub closed spec fn wf(&self) -> bool {
        forall|a: int, b: int|
            0 <= a < b < self.entries@.len() ==> (#[trigger] self.entries@[a]).0 != (
            #[trigger] self.entries@[b]).0
    }

    /// A store with nothing in it.
    pub fn new() -> (r: Self)
        ensures
            r.wf(),
            r.view() == Map::<u64, V>::empty(),
    {
        DataStore { entries: Vec::new() }
    }

    /// The position of `tag` in the list, if it is there.
    fn position(&self, tag: u64) -> (r: Option<usize>)
        ensures
            match r {
                Some(i) => i < self.entries@.len() && self.entries@[i as int].0 == tag,
                None => forall|i: int|
                    0 <= i < self.entries@.len() ==> (#[trigger] self.entries@[i]).0 != tag,
            },
    {
        let mut i: usize = 0;
        while i < self.entries.len()
            invariant
                i <= self.entries@.len(),
                forall|j: int| 0 <= j < i ==> (#[trigger] self.entries@[j]).0 != tag,
            decreases self.entries.len() - i,
        {
            if self.entries[i].0 == tag {
                return Some(i);
            }
            i += 1;
        }
        None
    }

    /// Registers `value` under `tag`, replacing what was there.
    pub fn insert(&mut self, tag: u64, value: V)
        requires
            old(self).wf(),
        ensures
            final(self).wf(),
            final(self).view() == old(self).view().insert(tag, value),
    {
        match self.position(tag) {
            Some(i) => {
                proof {
                    lemma_map_of_update(self.entries@, i as int, value);
                }
                self.entries.set(i, (tag, value));
            },
            None => {
                let ghost before = self.entries@;
                self.entries.push((tag, value));
                assert(self.entries@.drop_last() =~= before);
                assert(forall|a: int|
                    0 <= a < before.len() ==> (#[trigger] self.entries@[a]).0 == before[a].0);
            },
        }
    }

    /// Whether a value is registered under `tag`.
    pub fn contains(&self, tag: u64) -> (r: bool)
        ensures
            r == self.view().contains_key(tag),
    {
        proof {
            lemma_map_of_keys(self.entries@, tag);
        }
        self.position(tag).is_some()
    }

    /// The value registered under `tag`, if any.
    pub fn get(&self, tag: u64) -> (r: Option<&V>)
        requires
            self.wf(),
        ensures
            r is Some <==> self.view().contains_key(tag),
            r matches Some(v) ==> *v == self.view()[tag],
    {
        proof {
            lemma_map_of_keys(self.entries@, tag);
        }
        match self.position(tag) {
            Some(i) => {
                proof {
                    lemma_map_of_update(self.entries@, i as int, self.entries@[i as int].1);
                    assert(self.entries@.update(i as int, self.entries@[i as int]) =~= self.entries@);
                }
                Some(&self.entries[i].1)
            },
            None => None,
        }
    }
}

} // verus!
