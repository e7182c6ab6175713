//! The asset resolver's decisions. Making sure that the image of a key is in
//! the local cache takes a few outside steps (look in the cache, copy inside
//! it, fetch from the remote source); the resolver says which step comes next
//! from the outcome of the one before, and whoever runs it performs them.
//!
//! The policy: an image already cached is used at once; a key ending in the
//! presentation selector `-fe0f` reuses a cached image of its base form;
//! otherwise the image is fetched, and failing that the base form's image is
//! fetched and copied. Local bytes always come before a network request.

use vstd::prelude::*;
use crate::classify::{emoji_to_url_base, file_name_of, url_of, PNG_SUFFIX};
use crate::text::{chars_of, ends_with, is_suffix, push_str, string_of};
use crate::EmojiSourceMode;

verus! {

/// The presentation-selector suffix of a key.
pub const PRESENTATION_SUFFIX: &'static str = "-fe0f";

/// Where a resolution stands: the step last asked for, whose outcome comes next.
#[derive(Clone, Copy, Debug, PartialEq, Eq, Structural)]
pub enum ResolveState {
    CheckingKey,
    CheckingBase,
    CopyingBase,
    FetchingKey,
    FetchingBase,
    CopyingFetched,
    Done(bool),
}

/// A step for the runner to perform.
pub enum ResolveAction {
    /// Tell whether the cache holds this file.
    CheckCache(String),
    /// Copy the cached file `from` to `to` in the cache; tell whether it worked.
    CopyCached { from: String, to: String },
    /// Fetch `url`; on a success response store the bytes in the cache as
    /// `file`, atomically; tell whether both worked.
    Fetch { url: String, file: String },
    /// The resolution is over: whether the image is now cached.
    Finish(bool),
}

/// The plain values of a step.
pub enum StepView {
    CheckCache(Seq<char>),
    CopyCached(Seq<char>, Seq<char>),
    Fetch(Seq<char>, Seq<char>),
    Finish(bool),
}

impl View for ResolveAction {
    type V = StepView;

    open spec fn view(&self) -> StepView {
        match self {
            ResolveAction::CheckCache(f) => StepView::CheckCache(f@),
            ResolveAction::CopyCached { from, to } => StepView::CopyCached(from@, to@),
            ResolveAction::Fetch { url, file } => StepView::Fetch(url@, file@),
            ResolveAction::Finish(b) => StepView::Finish(*b),
        }
    }
}

/// The resolution of the image of one key.
pub struct Resolver {
    pub key: String,
    pub mode: EmojiSourceMode,
    pub state: ResolveState,
}

/// Whether a key ends with the presentation selector.
pub open spec fn has_selector(key: Seq<char>) -> bool {
    is_suffix(PRESENTATION_SUFFIX@, key) && key.len() > PRESENTATION_SUFFIX@.len()
}

/// The key without its presentation selector.
pub open spec fn base_key(key: Seq<char>) -> Seq<char> {
    key.subrange(0, key.len() - PRESENTATION_SUFFIX@.len())
}

/// The step and state that follow `state` when its step had outcome `ok`.
pub open spec fn next_step(state: ResolveState, key: Seq<char>, mode: EmojiSourceMode, ok: bool) -> (ResolveState, StepView) {
    let online = mode == EmojiSourceMode::Online;
    let fetch_key = StepView::Fetch(url_of(key), file_name_of(key));
    let copy_base = StepView::CopyCached(file_name_of(base_key(key)), file_name_of(key));
    match state {
        ResolveState::CheckingKey => if ok {
            (ResolveState::Done(true), StepView::Finish(true))
        } else if has_selector(key) {
            (ResolveState::CheckingBase, StepView::CheckCache(file_name_of(base_key(key))))
        } else if online {
            (ResolveState::FetchingKey, fetch_key)
        } else {
            (ResolveState::Done(false), StepView::Finish(false))
        },
        ResolveState::CheckingBase => if ok {
            (ResolveState::CopyingBase, copy_base)
        } else if online {
            (ResolveState::FetchingKey, fetch_key)
        } else {
            (ResolveState::Done(false), StepView::Finish(false))
        },
        ResolveState::CopyingBase => (ResolveState::Done(ok), StepView::Finish(ok)),
        ResolveState::FetchingKey => if ok {
            (ResolveState::Done(true), StepView::Finish(true))
        } else if has_selector(key) {
            (
                ResolveState::FetchingBase,
                StepView::Fetch(url_of(base_key(key)), file_name_of(base_key(key))),
            )
        } else {
            (ResolveState::Done(false), StepView::Finish(false))
        },
        ResolveState::FetchingBase => if ok {
            (ResolveState::CopyingFetched, copy_base)
        } else {
            (ResolveState::Done(false), StepView::Finish(false))
        },
        ResolveState::CopyingFetched => (ResolveState::Done(ok), StepView::Finish(ok)),
        ResolveState::Done(b) => (ResolveState::Done(b), StepView::Finish(b)),
    }
}

/// How many steps a resolution may still take at most.
pub open spec fn steps_left(state: ResolveState) -> nat {
    match state {
        ResolveState::CheckingKey => 6,
        ResolveState::CheckingBase => 5,
        ResolveState::CopyingBase => 1,
        ResolveState::FetchingKey => 3,
        ResolveState::FetchingBase => 2,
        ResolveState::CopyingFetched => 1,
        ResolveState::Done(_) => 0,
    }
}

fn file_of(key: &str) -> (r: String)
    ensures
        r@ == file_name_of(key@),
{
    let mut out: Vec<char> = Vec::new();
    push_str(&mut out, key);
    push_str(&mut out, PNG_SUFFIX);
    assert(out@ =~= file_name_of(key@));
    string_of(&out)
}

fn base_of(key: &str) -> (r: String)
    requires
        key@.len() >= PRESENTATION_SUFFIX@.len(),
    ensures
        r@ == base_key(key@),
{
    let cs = chars_of(key);
    let n: usize = cs.len() - chars_of(PRESENTATION_SUFFIX).len();
    let mut out: Vec<char> = Vec::new();
    let mut i: usize = 0;
    while i < n
        invariant
            n <= cs.len(),
            cs@ == key@,
            n == key@.len() - PRESENTATION_SUFFIX@.len(),
            i <= n,
            out@ == cs@.take(i as int),
        decreases n - i,
    {
        out.push(cs[i]);
        assert(out@ =~= cs@.take(i + 1));
        i = i + 1;
    }
    string_of(&out)
}

fn selector_of(key: &str) -> (r: bool)
    ensures
        r == has_selector(key@),
{
    ends_with(key, PRESENTATION_SUFFIX) && chars_of(key).len() > chars_of(PRESENTATION_SUFFIX).len()
}

impl Resolver {
    /// The states that work on the base form only occur for keys that have
    /// one, and the fetching states only in online mode.
    pub open spec fn wf(&self) -> bool {
        &&& match self.state {
            ResolveState::CheckingBase | ResolveState::CopyingBase | ResolveState::FetchingBase
            | ResolveState::CopyingFetched => has_selector(self.key@),
            _ => true,
        }
        &&& match self.state {
            ResolveState::FetchingKey | ResolveState::FetchingBase | ResolveState::CopyingFetched =>
                self.mode == EmojiSourceMode::Online,
            _ => true,
        }
    }

    /// Starts resolving the image of `key`: the first step looks for it in
    /// the cache.
    pub fn start(key: &str, mode: EmojiSourceMode) -> (r: (Resolver, ResolveAction))
        ensures
            r.0.key@ == key@,
            r.0.mode == mode,
            r.0.state == ResolveState::CheckingKey,
            r.0.wf(),
            r.1@ == StepView::CheckCache(file_name_of(key@)),
    {
        let file = file_of(key);
        (Resolver { key: key.to_string(), mode, state: ResolveState::CheckingKey }, ResolveAction::CheckCache(file))
    }

    /// Takes the outcome of the last step and gives the next one. In local
    /// mode no fetch is ever asked for, and every resolution finishes within
    /// six steps.
    pub fn step(&mut self, ok: bool) -> (r: ResolveAction)
        requires
            old(self).wf(),
        ensures
            final(self).wf(),
            final(self).key == old(self).key,
            final(self).mode == old(self).mode,
            (final(self).state, r@) == next_step(old(self).state, old(self).key@, old(self).mode, ok),
            old(self).mode == EmojiSourceMode::Local ==> !(r@ is Fetch),
            steps_left(final(self).state) < steps_left(old(self).state) || old(self).state is Done,
            r@ is Finish <==> final(self).state is Done,
    {
        let key = self.key.as_str();
        let online = matches!(self.mode, EmojiSourceMode::Online);
        let (state, action) = match self.state {
            ResolveState::CheckingKey => if ok {
                (ResolveState::Done(true), ResolveAction::Finish(true))
            } else if selector_of(key) {
                (ResolveState::CheckingBase, ResolveAction::CheckCache(file_of(base_of(key).as_str())))
            } else if online {
                (ResolveState::FetchingKey, ResolveAction::Fetch { url: emoji_to_url_base(key), file: file_of(key) })
            } else {
                (ResolveState::Done(false), ResolveAction::Finish(false))
            },
            ResolveState::CheckingBase => if ok {
                (ResolveState::CopyingBase, self.copy_base())
            } else if online {
                (ResolveState::FetchingKey, ResolveAction::Fetch { url: emoji_to_url_base(key), file: file_of(key) })
            } else {
                (ResolveState::Done(false), ResolveAction::Finish(false))
            },
            ResolveState::CopyingBase => (ResolveState::Done(ok), ResolveAction::Finish(ok)),
            ResolveState::FetchingKey => if ok {
                (ResolveState::Done(true), ResolveAction::Finish(true))
            } else if selector_of(key) {
                let base = base_of(key);
                (ResolveState::FetchingBase, ResolveAction::Fetch { url: emoji_to_url_base(base.as_str()), file: file_of(base.as_str()) })
            } else {
                (ResolveState::Done(false), ResolveAction::Finish(false))
            },
            ResolveState::FetchingBase => if ok {
                (ResolveState::CopyingFetched, self.copy_base())
            } else {
                (ResolveState::Done(false), ResolveAction::Finish(false))
            },
            ResolveState::CopyingFetched => (ResolveState::Done(ok), ResolveAction::Finish(ok)),
            ResolveState::Done(b) => (ResolveState::Done(b), ResolveAction::Finish(b)),
        };
        self.state = state;
        action
    }

    fn copy_base(&self) -> (r: ResolveAction)
        requires
            has_selector(self.key@),
        ensures
            r@ == StepView::CopyCached(file_name_of(base_key(self.key@)), file_name_of(self.key@)),
    {
        let base = base_of(self.key.as_str());
        ResolveAction::CopyCached { from: file_of(base.as_str()), to: file_of(self.key.as_str()) }
    }
}

} // verus!
