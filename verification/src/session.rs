//! What the user is looking at, and what each thing they do leads to.

use vstd::prelude::*;
use crate::rfdc::{AdcBlock, RfdcConfig};
use crate::sim::{moving_on_is_exact, SimClock, Tab};
use crate::spectrum::{FftWindow, SpectrumAnalysis, SpectrumDetail};
use crate::units::{Micro, UNIT};

verus! {

/// The state of the interface beside the configuration it shows.
#[derive(Clone, Copy, Debug, PartialEq, Eq, Structural)]
pub struct Session {
    /// Simulated time.
    pub clock: SimClock,
    /// Tab shown in the main area.
    pub active_tab: Tab,
    /// Selected tile.
    pub selected_tile: usize,
    /// Selected block within the tile.
    pub selected_block: usize,
    /// Whether the spectra are computed anew every frame.
    pub auto_compute: bool,
    /// How every displayed spectrum is analysed.
    pub analysis: SpectrumAnalysis,
    /// Captures asked for so far; the number of the latest one.
    pub captures: u64,
}

impl Default for Session {
    fn default() -> (session: Self)
        ensures
            session == (Session {
                clock: SimClock { is_running: true, time_us: 0, fraction: 0, speed: UNIT },
                active_tab: Tab::Overview,
                selected_tile: 0,
                selected_block: 0,
                auto_compute: true,
                analysis: SpectrumAnalysis {
                    window: FftWindow::BlackmanHarris,
                    detail: SpectrumDetail::Balanced,
                },
                captures: 0,
            }),
    {
        Session {
            clock: SimClock::default(),
            active_tab: Tab::Overview,
            selected_tile: 0,
            selected_block: 0,
            auto_compute: true,
            analysis: SpectrumAnalysis::default(),
            captures: 0,
        }
    }
}

/// Something that happens to the interface.
#[derive(Clone, Copy, Debug, PartialEq, Eq, Structural)]
pub enum Event {
    /// A frame is drawn, this long after the one before, in microseconds.
    Frame { since_last: Option<Micro> },
    /// A tab is opened.
    ShowTab(Tab),
    /// A tile is picked in the sidebar, which keeps the block.
    PickTile(usize),
    /// A block is picked in the sidebar.
    PickBlock(usize),
    /// A tile is picked in the overview, which goes to its first block.
    OpenTile(usize),
    /// A block is picked in the overview.
    OpenBlock { tile: usize, block: usize },
    /// Computing every frame is switched on or off.
    SetAutoCompute(bool),
    /// The spectra are asked for.
    Recompute,
    /// Another configuration was loaded.
    Loaded,
    /// Another analysis is chosen.
    SetAnalysis(SpectrumAnalysis),
    /// Simulated time is started or stopped.
    TogglePlay,
    /// Simulated time is moved on by hand.
    Step,
    /// Simulated time is set to zero.
    Reset,
    /// Simulated time is given another speed.
    SetSpeed(Micro),
}

impl Event {
    /// The event names a tile and a block that exist, a time that has passed, and a speed within
    /// the clock's range.
    pub open spec fn is_possible(self) -> bool {
        match self {
            Event::Frame { since_last } => since_last is Some ==> since_last->0 >= 0,
            Event::PickTile(tile) => tile < 4,
            Event::PickBlock(block) => block < 2,
            Event::OpenTile(tile) => tile < 4,
            Event::OpenBlock { tile, block } => tile < 4 && block < 2,
            Event::SetSpeed(speed) => 0 <= speed <= 1_000_000_000,
            _ => true,
        }
    }
}

/// What an event leads to.
#[derive(Clone, Copy, Debug, PartialEq, Eq, Structural)]
pub struct Reply {
    /// The spectra have to be computed, as the capture of this number. A number is given to one
    /// capture only, so that a new capture can be told from the latest one drawn again.
    pub capture: Option<u64>,
    /// The next frame has to be drawn without waiting for the user.
    pub repaint: bool,
}

impl Session {
    /// The selected tile and block exist, and the clock is in its range.
    pub open spec fn wf(&self) -> bool {
        self.selected_tile < 4 && self.selected_block < 2 && self.clock.in_range()
    }

    /// The number of the next capture: one more than the latest, starting over after the last
    /// number there is.
    pub open spec fn next_capture(self) -> u64 {
        if self.captures < u64::MAX {
            (self.captures + 1) as u64
        } else {
            0
        }
    }

    /// The clock after an event.
    pub open spec fn clock_after(self, event: Event) -> SimClock {
        match event {
            Event::Frame { since_last } => self.clock.ticked(since_last),
            Event::TogglePlay => SimClock { is_running: !self.clock.is_running, ..self.clock },
            Event::Step => self.clock.stepped(),
            Event::Reset => SimClock { time_us: 0, fraction: 0, ..self.clock },
            Event::SetSpeed(speed) => SimClock { speed, ..self.clock },
            _ => self.clock,
        }
    }

    /// The selected tile and block after an event.
    pub open spec fn selection_after(self, event: Event) -> (usize, usize) {
        match event {
            Event::PickTile(tile) => (tile, self.selected_block),
            Event::PickBlock(block) => (self.selected_tile, block),
            Event::OpenTile(tile) => (tile, 0),
            Event::OpenBlock { tile, block } => (tile, block),
            _ => (self.selected_tile, self.selected_block),
        }
    }

    /// The session after an event.
    pub open spec fn after(self, event: Event) -> Session {
        Session {
            clock: self.clock_after(event),
            active_tab: match event {
                Event::ShowTab(tab) => tab,
                _ => self.active_tab,
            },
            selected_tile: self.selection_after(event).0,
            selected_block: self.selection_after(event).1,
            auto_compute: match event {
                Event::SetAutoCompute(on) => on,
                _ => self.auto_compute,
            },
            analysis: match event {
                Event::SetAnalysis(analysis) => analysis,
                _ => self.analysis,
            },
            captures: if self.must_recompute(event) {
                self.next_capture()
            } else {
                self.captures
            },
        }
    }

    /// Whether the spectra have to be computed: on request, after a configuration was loaded or
    /// time was stepped by hand, and with every frame if that is switched on. Another analysis
    /// only asks for it where the next frame would not.
    pub open spec fn must_recompute(self, event: Event) -> bool {
        match event {
            Event::Frame { .. } => self.auto_compute,
            Event::Recompute | Event::Loaded => true,
            Event::Step => !self.clock.is_running,
            Event::SetAnalysis(analysis) => analysis != self.analysis && !self.auto_compute,
            _ => false,
        }
    }

    /// Takes in an event.
    pub fn handle(&mut self, event: Event) -> (reply: Reply)
        requires
            event.is_possible(),
            old(self).wf(),
        ensures
            *final(self) == old(self).after(event),
            final(self).wf(),
            reply.capture == if old(self).must_recompute(event) {
                Some(old(self).next_capture())
            } else {
                None
            },
            reply.repaint == (event is Frame && old(self).clock.is_running),
    {
        let mut recompute: bool = false;
        let mut repaint: bool = false;
        match event {
            Event::Frame { since_last } => {
                self.clock.tick(since_last);
                recompute = self.auto_compute;
                repaint = self.clock.is_running;
            },
            Event::ShowTab(tab) => {
                self.active_tab = tab;
            },
            Event::PickTile(tile) => {
                self.selected_tile = tile;
            },
            Event::PickBlock(block) => {
                self.selected_block = block;
            },
            Event::OpenTile(tile) => {
                self.selected_tile = tile;
                self.selected_block = 0;
            },
            Event::OpenBlock { tile, block } => {
                self.selected_tile = tile;
                self.selected_block = block;
            },
            Event::SetAutoCompute(on) => {
                self.auto_compute = on;
            },
            Event::Recompute | Event::Loaded => {
                recompute = true;
            },
            Event::SetAnalysis(analysis) => {
                recompute = analysis != self.analysis && !self.auto_compute;
                self.analysis = analysis;
            },
            Event::TogglePlay => {
                self.clock.toggle();
            },
            Event::Step => {
                recompute = self.clock.step();
            },
            Event::Reset => {
                self.clock.reset();
            },
            Event::SetSpeed(speed) => {
                self.clock.speed = speed;
            },
        }
        let capture: Option<u64> = if recompute {
            self.captures = if self.captures < u64::MAX {
                self.captures + 1
            } else {
                0
            };
            Some(self.captures)
        } else {
            None
        };
        Reply { capture, repaint }
    }

    /// The selected block, if its signal is to be computed: the block and its tile are enabled.
    pub fn target<'a>(&self, config: &'a RfdcConfig) -> (block: Option<&'a AdcBlock>)
        requires
            self.wf(),
        ensures
            ({
                let tile = config.adc_tiles[self.selected_tile as int];
                let selected = tile.blocks[self.selected_block as int];
                &&& block is Some <==> tile.enabled && selected.enabled
                &&& block is Some ==> *block->0 == selected
            }),
    {
        config.active_block(self.selected_tile, self.selected_block)
    }
}

/// The spectra on the screen are never older than the settings they claim to show: after another
/// analysis was chosen, either they are computed at once or the next frame computes them.
pub proof fn analysis_is_never_stale(
    session: Session,
    analysis: SpectrumAnalysis,
    since_last: Option<Micro>,
)
    ensures
        ({
            let chosen = Event::SetAnalysis(analysis);
            analysis == session.analysis || session.must_recompute(chosen) || session.after(
                chosen,
            ).must_recompute(Event::Frame { since_last })
        }),
{
}

/// Successive captures never share a number, and until the numbers run out they rise.
pub proof fn captures_are_told_apart(session: Session, event: Event)
    requires
        session.must_recompute(event),
    ensures
        session.after(event).captures != session.captures,
        session.captures < u64::MAX ==> session.after(event).captures == session.captures + 1,
{
}

/// Simulated time only moves while it runs, or when it is stepped or reset by hand.
pub proof fn time_moves_only_when_asked(session: Session, event: Event)
    requires
        session.clock.in_range(),
        event.is_possible(),
        session.after(event).clock.exact_time() != session.clock.exact_time(),
    ensures
        event is Frame && session.clock.is_running || event is Step && !session.clock.is_running
            || event is Reset,
{
}

/// An event changes what it names and nothing else: the tab, the selection, whether every frame is
/// computed, the analysis. Picking a tile in the sidebar keeps the block, opening one goes to its
/// first.
pub proof fn events_change_only_what_they_name(session: Session, event: Event)
    ensures
        ({
            let after = session.after(event);
            &&& after.active_tab == match event {
                Event::ShowTab(tab) => tab,
                _ => session.active_tab,
            }
            &&& event matches Event::PickTile(tile) ==> after.selected_tile == tile
                && after.selected_block == session.selected_block
            &&& event matches Event::PickBlock(block) ==> after.selected_block == block
                && after.selected_tile == session.selected_tile
            &&& event matches Event::OpenTile(tile) ==> after.selected_tile == tile
                && after.selected_block == 0
            &&& event matches Event::OpenBlock { tile, block } ==> after.selected_tile == tile
                && after.selected_block == block
            &&& after.selected_tile != session.selected_tile ==> event is PickTile
                || event is OpenTile || event is OpenBlock
            &&& after.selected_block != session.selected_block ==> event is PickBlock
                || event is OpenTile || event is OpenBlock
            &&& event matches Event::SetAutoCompute(on) ==> after.auto_compute == on
            &&& !(event is SetAutoCompute) ==> after.auto_compute == session.auto_compute
            &&& event matches Event::SetAnalysis(analysis) ==> after.analysis == analysis
            &&& !(event is SetAnalysis) ==> after.analysis == session.analysis
            &&& event matches Event::SetSpeed(speed) ==> after.clock.speed == speed
            &&& !(event is SetSpeed) ==> after.clock.speed == session.clock.speed
            &&& !(event is TogglePlay) ==> after.clock.is_running == session.clock.is_running
        }),
{
}

/// What each event does to simulated time. Toggling starts a stopped clock and stops a running
/// one, and moves neither; a frame moves a running clock and a step a stopped one, by ten
/// milliseconds, each at the chosen speed; a reset sets it to zero.
pub proof fn events_move_time_as_they_should(session: Session, event: Event)
    requires
        session.clock.in_range(),
        event.is_possible(),
        session.clock.exact_time() + 100_000_000_000int * session.clock.speed
            <= crate::clock::TIME_END * UNIT,
    ensures
        ({
            let (before, after) = (session.clock, session.after(event).clock);
            &&& event is TogglePlay ==> after.is_running != before.is_running && after.exact_time()
                == before.exact_time()
            &&& event is Reset ==> after.exact_time() == 0
            &&& event is Step && !before.is_running ==> after.exact_time() == before.exact_time()
                + 10_000_000_000 * before.speed
            &&& event is Step && before.is_running ==> after == before
            &&& event matches Event::Frame { since_last } ==> {
                &&& !before.is_running ==> after == before
                &&& before.is_running && since_last is None ==> after.exact_time()
                    == before.exact_time() + 16_000_000_000 * before.speed
                &&& before.is_running && since_last is Some && since_last->0 <= 100_000_000_000
                    ==> after.exact_time() == before.exact_time() + since_last->0 * before.speed
                &&& before.is_running && since_last is Some && since_last->0 > 100_000_000_000
                    ==> after.exact_time() == before.exact_time() + 100_000_000_000 * before.speed
            }
        }),
{
    let clock = session.clock;
    let s = clock.speed as int;
    match event {
        Event::Frame { since_last } => {
            let passed = SimClock::frame_time(since_last);
            assert(0 <= passed * s <= 100_000_000_000 * s) by (nonlinear_arith)
                requires
                    0 <= passed <= 100_000_000_000,
                    0 <= s,
            ;
            moving_on_is_exact(clock, passed * s);
        },
        Event::Step => {
            assert(0 <= 10_000_000_000 * s <= 100_000_000_000 * s);
            moving_on_is_exact(clock, 10_000_000_000 * s);
        },
        _ => {},
    }
}

/// When the spectra are computed: whenever they are asked for or another configuration was loaded;
/// with every frame if that is switched on; after a step that moves time; and at once for another
/// analysis unless the next frame will see to it. Nothing else computes them, and every time they
/// are computed counts as one capture.
pub proof fn spectra_are_computed_when_needed(session: Session, event: Event)
    ensures
        event is Recompute || event is Loaded ==> session.must_recompute(event),
        event is Frame ==> (session.must_recompute(event) <==> session.auto_compute),
        event is Step ==> (session.must_recompute(event) <==> !session.clock.is_running),
        event matches Event::SetAnalysis(analysis) ==> (session.must_recompute(event) <==> analysis
            != session.analysis && !session.auto_compute),
        session.must_recompute(event) ==> event is Recompute || event is Loaded || event is Frame
            || event is Step || event is SetAnalysis,
        !session.must_recompute(event) ==> session.after(event).captures == session.captures,
        session.must_recompute(event) && session.captures == u64::MAX ==> session.after(
            event,
        ).captures == 0,
{
}

} // verus!
