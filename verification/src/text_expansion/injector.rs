//! The snippet injection protocol as a step function: from where the
//! protocol stands and what came of the last action to the next action.
//! The host performs the actions; this module decides them.

use vstd::prelude::*;

verus! {

/// The pause before anything is touched.
pub const SETTLE_MS: u64 = 30;

/// The pause behind each backspace.
pub const KEY_GAP_MS: u64 = 5;

/// The pause that lets a clipboard write settle.
pub const CLIPBOARD_SETTLE_MS: u64 = 50;

/// The pause between the paste and the restoring of the clipboard.
pub const RESTORE_DELAY_MS: u64 = 150;

/// Where an injection stands: the action that is under way.
#[derive(Debug, Clone, Copy, PartialEq, Eq, Structural)]
pub enum Stage {
    Settling,
    Saving,
    Erasing,
    ErasePause,
    Guarding,
    Writing,
    WriteSettle,
    Pressing,
    Clicking,
    Releasing,
    RestorePause,
    Restoring,
    Unguarding,
    Finished,
}

/// What the host is to do next.
#[derive(Debug, Clone, PartialEq, Eq)]
pub enum InjectAction {
    /// Sleep for so many milliseconds.
    Wait(u64),
    /// Read the clipboard's text and report it.
    ReadClipboard,
    /// Press and release backspace.
    PressBackspace,
    /// Make the clipboard monitor ignore changes from now on.
    BeginSuppressedWrite,
    /// Put this text on the clipboard.
    WriteClipboard(String),
    /// Press the paste chord's modifier.
    PressModifier,
    /// Press and release the paste chord's character.
    ClickPasteKey,
    /// Release the paste chord's modifier.
    ReleaseModifier,
    /// Let the clipboard monitor see changes again.
    EndSuppressedWrite,
    /// Nothing: the injection is over.
    Finish,
}

/// What came of the action before.
#[derive(Debug, Clone, PartialEq, Eq)]
pub enum InjectEvent {
    /// It was carried out.
    Done,
    /// The clipboard was read, and held this text or none.
    ClipboardRead(Option<String>),
    /// It failed.
    Failed,
}

/// One injection in progress.
pub struct Injection {
    stage: Stage,
    erase_count: usize,
    erased: usize,
    content: String,
    saved: Option<String>,
}

/// An injection as plain values.
pub struct InjectionView {
    pub stage: Stage,
    pub erase_count: nat,
    pub erased: nat,
    pub content: Seq<char>,
    pub saved: Option<Seq<char>>,
}

/// An action as plain values.
pub enum ActionView {
    Wait(u64),
    ReadClipboard,
    PressBackspace,
    BeginSuppressedWrite,
    WriteClipboard(Seq<char>),
    PressModifier,
    ClickPasteKey,
    ReleaseModifier,
    EndSuppressedWrite,
    Finish,
}

/// An event as plain values.
pub enum EventView {
    Done,
    ClipboardRead(Option<Seq<char>>),
    Failed,
}

impl View for InjectAction {
    type V = ActionView;

    open spec fn view(&self) -> ActionView {
        match self {
            InjectAction::Wait(ms) => ActionView::Wait(*ms),
            InjectAction::ReadClipboard => ActionView::ReadClipboard,
            InjectAction::PressBackspace => ActionView::PressBackspace,
            InjectAction::BeginSuppressedWrite => ActionView::BeginSuppressedWrite,
            InjectAction::WriteClipboard(text) => ActionView::WriteClipboard(text@),
            InjectAction::PressModifier => ActionView::PressModifier,
            InjectAction::ClickPasteKey => ActionView::ClickPasteKey,
            InjectAction::ReleaseModifier => ActionView::ReleaseModifier,
            InjectAction::EndSuppressedWrite => ActionView::EndSuppressedWrite,
            InjectAction::Finish => ActionView::Finish,
        }
    }
}

impl View for InjectEvent {
    type V = EventView;

    open spec fn view(&self) -> EventView {
        match self {
            InjectEvent::Done => EventView::Done,
            InjectEvent::ClipboardRead(Some(text)) => EventView::ClipboardRead(Some(text@)),
            InjectEvent::ClipboardRead(None) => EventView::ClipboardRead(None),
            InjectEvent::Failed => EventView::Failed,
        }
    }
}

/// Whether the monitor is held off while the action of `stage` is under
/// way: from the first clipboard write until the order to let it see again.
pub open spec fn suppressing(stage: Stage) -> bool {
    stage is Writing || stage is WriteSettle || stage is Pressing || stage is Clicking
        || stage is Releasing || stage is RestorePause || stage is Restoring
}

/// The action of the stage that the injection enters.
pub open spec fn action_of(state: InjectionView) -> ActionView {
    match state.stage {
        Stage::Settling => ActionView::Wait(SETTLE_MS),
        Stage::Saving => ActionView::ReadClipboard,
        Stage::Erasing => ActionView::PressBackspace,
        Stage::ErasePause => ActionView::Wait(KEY_GAP_MS),
        Stage::Guarding => ActionView::BeginSuppressedWrite,
        Stage::Writing => ActionView::WriteClipboard(state.content),
        Stage::WriteSettle => ActionView::Wait(CLIPBOARD_SETTLE_MS),
        Stage::Pressing => ActionView::PressModifier,
        Stage::Clicking => ActionView::ClickPasteKey,
        Stage::Releasing => ActionView::ReleaseModifier,
        Stage::RestorePause => ActionView::Wait(RESTORE_DELAY_MS),
        Stage::Restoring => ActionView::WriteClipboard(
            match state.saved {
                Some(text) => text,
                None => Seq::empty(),
            },
        ),
        Stage::Unguarding => ActionView::EndSuppressedWrite,
        Stage::Finished => ActionView::Finish,
    }
}

/// The stage that follows the erasing of `erased` of `erase_count`
/// characters.
pub open spec fn after_erasing(erased: nat, erase_count: nat) -> Stage {
    if erased < erase_count {
        Stage::Erasing
    } else {
        Stage::Guarding
    }
}

/// Where the injection stands once `event` was reported for the action
/// under way. A failure ends it: at once where the monitor is not held
/// off, else by way of the order that lets it see again.
pub open spec fn step(state: InjectionView, event: EventView) -> InjectionView {
    let failed = event is Failed;
    match state.stage {
        Stage::Settling => InjectionView { stage: Stage::Saving, ..state },
        Stage::Saving => InjectionView {
            stage: after_erasing(0, state.erase_count),
            saved: match event {
                EventView::ClipboardRead(held) => held,
                _ => None,
            },
            ..state
        },
        Stage::Erasing => if failed {
            InjectionView { stage: Stage::Finished, ..state }
        } else {
            InjectionView {
                stage: Stage::ErasePause,
                erased: if state.erased < state.erase_count {
                    state.erased + 1
                } else {
                    state.erased
                },
                ..state
            }
        },
        Stage::ErasePause => InjectionView {
            stage: after_erasing(state.erased, state.erase_count),
            ..state
        },
        Stage::Guarding => InjectionView { stage: Stage::Writing, ..state },
        Stage::Writing => InjectionView {
            stage: if failed {
                Stage::Unguarding
            } else {
                Stage::WriteSettle
            },
            ..state
        },
        Stage::WriteSettle => InjectionView { stage: Stage::Pressing, ..state },
        Stage::Pressing => InjectionView {
            stage: if failed {
                Stage::Unguarding
            } else {
                Stage::Clicking
            },
            ..state
        },
        Stage::Clicking => InjectionView {
            stage: if failed {
                Stage::Unguarding
            } else {
                Stage::Releasing
            },
            ..state
        },
        Stage::Releasing => InjectionView {
            stage: if failed {
                Stage::Unguarding
            } else {
                Stage::RestorePause
            },
            ..state
        },
        Stage::RestorePause => InjectionView {
            stage: if state.saved is Some {
                Stage::Restoring
            } else {
                Stage::Unguarding
            },
            ..state
        },
        Stage::Restoring => InjectionView { stage: Stage::Unguarding, ..state },
        Stage::Unguarding => InjectionView { stage: Stage::Finished, ..state },
        Stage::Finished => state,
    }
}

/// The most actions that an injection in `state` still asks for.
pub open spec fn actions_left(state: InjectionView) -> nat {
    let erasing: nat = if state.erased <= state.erase_count {
        (2 * (state.erase_count - state.erased)) as nat
    } else {
        0
    };
    match state.stage {
        Stage::Settling => erasing + 14,
        Stage::Saving => erasing + 13,
        Stage::Erasing => erasing + 11,
        Stage::ErasePause => erasing + 12,
        Stage::Guarding => 10,
        Stage::Writing => 9,
        Stage::WriteSettle => 8,
        Stage::Pressing => 7,
        Stage::Clicking => 6,
        Stage::Releasing => 5,
        Stage::RestorePause => 4,
        Stage::Restoring => 3,
        Stage::Unguarding => 2,
        Stage::Finished => 0,
    }
}

/// What holds of every injection that was begun and advanced: the count of
/// erased characters is within the count to erase, and short of it while a
/// backspace is under way.
pub open spec fn well_formed(state: InjectionView) -> bool {
    &&& state.erased <= state.erase_count
    &&& state.stage is Erasing ==> state.erased < state.erase_count
    &&& (state.stage is Settling || state.stage is Saving) ==> state.erased == 0
}

impl Injection {
    /// The injection as plain values.
    pub closed spec fn view(&self) -> InjectionView {
        InjectionView {
            stage: self.stage,
            erase_count: self.erase_count as nat,
            erased: self.erased as nat,
            content: self.content@,
            saved: match self.saved {
                Some(text) => Some(text@),
                None => None,
            },
        }
    }

    /// Starts an injection that erases `erase_count` characters and puts
    /// `content` in their place. The first action is the settling pause.
    pub fn begin(erase_count: usize, content: String) -> (started: (Injection, InjectAction))
        ensures
            started.0@ == (InjectionView {
                stage: Stage::Settling,
                erase_count: erase_count as nat,
                erased: 0,
                content: content@,
                saved: None,
            }),
            started.1@ == action_of(started.0@),
            well_formed(started.0@),
    {
        let injection = Injection {
            stage: Stage::Settling,
            erase_count,
            erased: 0,
            content,
            saved: None,
        };
        (injection, InjectAction::Wait(SETTLE_MS))
    }

    /// Whether the injection is over.
    pub fn is_finished(&self) -> (over: bool)
        ensures
            over == (self@.stage is Finished),
    {
        match self.stage {
            Stage::Finished => true,
            _ => false,
        }
    }

    /// Whether the monitor is held off at this point.
    pub fn is_suppressing(&self) -> (held_off: bool)
        ensures
            held_off == suppressing(self@.stage),
    {
        match self.stage {
            Stage::Writing | Stage::WriteSettle | Stage::Pressing | Stage::Clicking
            | Stage::Releasing | Stage::RestorePause | Stage::Restoring => true,
            _ => false,
        }
    }

    /// The next stage, and what of the clipboard is kept, after `event`.
    fn follow(&mut self, event: InjectEvent)
        ensures
            final(self)@ == step(old(self)@, event@),
    {
        let failed = match event {
            InjectEvent::Failed => true,
            _ => false,
        };
        match self.stage {
            Stage::Settling => {
                self.stage = Stage::Saving;
            },
            Stage::Saving => {
                self.saved = match event {
                    InjectEvent::ClipboardRead(held) => held,
                    _ => None,
                };
                self.stage = if self.erase_count > 0 {
                    Stage::Erasing
                } else {
                    Stage::Guarding
                };
            },
            Stage::Erasing => {
                if failed {
                    self.stage = Stage::Finished;
                } else {
                    if self.erased < self.erase_count {
                        self.erased = self.erased + 1;
                    }
                    self.stage = Stage::ErasePause;
                }
            },
            Stage::ErasePause => {
                self.stage = if self.erased < self.erase_count {
                    Stage::Erasing
                } else {
                    Stage::Guarding
                };
            },
            Stage::Guarding => {
                self.stage = Stage::Writing;
            },
            Stage::Writing => {
                self.stage = if failed {
                    Stage::Unguarding
                } else {
                    Stage::WriteSettle
                };
            },
            Stage::WriteSettle => {
                self.stage = Stage::Pressing;
            },
            Stage::Pressing => {
                self.stage = if failed {
                    Stage::Unguarding
                } else {
                    Stage::Clicking
                };
            },
            Stage::Clicking => {
                self.stage = if failed {
                    Stage::Unguarding
                } else {
                    Stage::Releasing
                };
            },
            Stage::Releasing => {
                self.stage = if failed {
                    Stage::Unguarding
                } else {
                    Stage::RestorePause
                };
            },
            Stage::RestorePause => {
                self.stage = if self.saved.is_some() {
                    Stage::Restoring
                } else {
                    Stage::Unguarding
                };
            },
            Stage::Restoring => {
                self.stage = Stage::Unguarding;
            },
            Stage::Unguarding => {
                self.stage = Stage::Finished;
            },
            Stage::Finished => {},
        }
    }

    /// The action of the stage the injection stands at.
    fn current_action(&self) -> (action: InjectAction)
        ensures
            action@ == action_of(self@),
    {
        match self.stage {
            Stage::Settling => InjectAction::Wait(SETTLE_MS),
            Stage::Saving => InjectAction::ReadClipboard,
            Stage::Erasing => InjectAction::PressBackspace,
            Stage::ErasePause => InjectAction::Wait(KEY_GAP_MS),
            Stage::Guarding => InjectAction::BeginSuppressedWrite,
            Stage::Writing => InjectAction::WriteClipboard(self.content.clone()),
            Stage::WriteSettle => InjectAction::Wait(CLIPBOARD_SETTLE_MS),
            Stage::Pressing => InjectAction::PressModifier,
            Stage::Clicking => InjectAction::ClickPasteKey,
            Stage::Releasing => InjectAction::ReleaseModifier,
            Stage::RestorePause => InjectAction::Wait(RESTORE_DELAY_MS),
            Stage::Restoring => match &self.saved {
                Some(text) => InjectAction::WriteClipboard(text.clone()),
                None => InjectAction::WriteClipboard(String::new()),
            },
            Stage::Unguarding => InjectAction::EndSuppressedWrite,
            Stage::Finished => InjectAction::Finish,
        }
    }

    /// Takes what came of the last action and gives the next one.
    pub fn advance(&mut self, event: InjectEvent) -> (action: InjectAction)
        ensures
            final(self)@ == step(old(self)@, event@),
            action@ == action_of(final(self)@),
    {
        self.follow(event);
        self.current_action()
    }
}

/// The injection never ends while the monitor is held off: from such a
/// stage the next action is never the last one, whatever was reported.
pub proof fn lemma_release_is_guaranteed(state: InjectionView, event: EventView)
    requires
        suppressing(state.stage),
    ensures
        !(action_of(step(state, event)) is Finish),
        suppressing(step(state, event).stage) || action_of(step(state, event))
            is EndSuppressedWrite,
{
}

/// The clipboard is written only while the monitor is held off.
pub proof fn lemma_writes_are_suppressed(state: InjectionView, event: EventView)
    requires
        action_of(step(state, event)) is WriteClipboard,
    ensures
        suppressing(step(state, event).stage),
        suppressing(state.stage) || state.stage is Guarding,
{
}

/// Every injection comes to its end: each step that is not the last
/// leaves fewer actions to ask for, so the order that lets the monitor see
/// again is reached wherever it is owed.
pub proof fn lemma_injection_progresses(state: InjectionView, event: EventView)
    requires
        well_formed(state),
        !(state.stage is Finished),
    ensures
        actions_left(step(state, event)) < actions_left(state),
        well_formed(step(state, event)),
        actions_left(state) == 0 <==> state.stage is Finished,
{
}

} // verus!
