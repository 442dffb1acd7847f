use rfsoc_sim::clock::TIME_END;
use rfsoc_sim::rfdc::RfdcConfig;
use rfsoc_sim::session::{Event, Reply, Session};
use rfsoc_sim::sim::{SimClock, Tab};
use rfsoc_sim::spectrum::{FftWindow, SpectrumAnalysis, SpectrumDetail};

const QUIET: Reply = Reply { capture: None, repaint: false };

#[test]
fn frames_advance_time_and_recompute() {
    let mut session = Session::default();
    assert_eq!(session.active_tab, Tab::Overview);
    let reply = session.handle(Event::Frame { since_last: None });
    assert_eq!(reply, Reply { capture: Some(1), repaint: true });
    assert_eq!(session.clock.time_us, 16_000_000_000);
    session.handle(Event::SetSpeed(2_000_000));
    session.handle(Event::Frame { since_last: Some(30_000_000_000) });
    assert_eq!(session.clock.time_us, 76_000_000_000);
    session.handle(Event::Frame { since_last: Some(9_000_000_000_000) });
    assert_eq!(session.clock.time_us, 276_000_000_000);
    session.handle(Event::SetAutoCompute(false));
    let reply = session.handle(Event::Frame { since_last: Some(0) });
    assert_eq!(reply, Reply { capture: None, repaint: true });
    assert_eq!(session.handle(Event::Reset), QUIET);
    let reset = SimClock { is_running: true, time_us: 0, fraction: 0, speed: 2_000_000 };
    assert_eq!(session.clock, reset);
}

#[test]
fn a_stopped_clock_can_be_stepped() {
    let mut session = Session::default();
    assert_eq!(session.handle(Event::Step), QUIET);
    assert_eq!(session.clock.time_us, 0);
    assert_eq!(session.handle(Event::TogglePlay), QUIET);
    let reply = session.handle(Event::Frame { since_last: Some(50_000_000_000) });
    assert_eq!(reply, Reply { capture: Some(1), repaint: false });
    assert_eq!(session.clock.time_us, 0);
    let reply = session.handle(Event::Step);
    assert_eq!(reply, Reply { capture: Some(2), repaint: false });
    assert_eq!(session.clock.time_us, 10_000_000_000);
}

#[test]
fn selections_follow_the_place_they_are_made_in() {
    let mut session = Session::default();
    session.handle(Event::OpenBlock { tile: 3, block: 1 });
    assert_eq!((session.selected_tile, session.selected_block), (3, 1));
    session.handle(Event::PickTile(2));
    assert_eq!((session.selected_tile, session.selected_block), (2, 1));
    session.handle(Event::OpenTile(1));
    assert_eq!((session.selected_tile, session.selected_block), (1, 0));
    session.handle(Event::PickBlock(1));
    assert_eq!((session.selected_tile, session.selected_block), (1, 1));
    assert_eq!(session.handle(Event::ShowTab(Tab::Spectrum)), QUIET);
    assert_eq!(session.active_tab, Tab::Spectrum);
}

#[test]
fn another_analysis_is_computed_once() {
    let mut session = Session::default();
    let flat = SpectrumAnalysis { window: FftWindow::FlatTop, detail: SpectrumDetail::Max };
    assert_eq!(session.handle(Event::SetAnalysis(flat)), QUIET);
    assert_eq!(session.analysis, flat);
    session.handle(Event::SetAutoCompute(false));
    assert_eq!(session.handle(Event::SetAnalysis(flat)), QUIET);
    let fast = SpectrumAnalysis { detail: SpectrumDetail::Fast, ..flat };
    assert_eq!(session.handle(Event::SetAnalysis(fast)).capture, Some(1));
    assert_eq!(session.handle(Event::Recompute).capture, Some(2));
    assert_eq!(session.handle(Event::Loaded).capture, Some(3));
}

#[test]
fn only_enabled_blocks_are_computed() {
    let mut config = RfdcConfig::default();
    let mut session = Session::default();
    session.handle(Event::OpenBlock { tile: 1, block: 1 });
    assert_eq!(session.target(&config).map(|b| b.index), Some(1));
    config.adc_tiles[1].blocks[1].enabled = false;
    assert!(session.target(&config).is_none());
    session.handle(Event::OpenTile(1));
    assert_eq!(session.target(&config).map(|b| b.index), Some(0));
    config.adc_tiles[1].enabled = false;
    assert!(session.target(&config).is_none());
}

#[test]
fn capture_numbers_rise_and_start_over() {
    let mut session = Session { captures: u64::MAX - 1, ..Session::default() };
    assert_eq!(session.handle(Event::Recompute).capture, Some(u64::MAX));
    assert_eq!(session.handle(Event::ShowTab(Tab::RfChain)).capture, None);
    assert_eq!(session.handle(Event::Recompute).capture, Some(0));
    assert_eq!(session.captures, 0);
}

#[test]
fn the_clock_stands_still_at_its_end() {
    let mut session = Session::default();
    session.clock.time_us = TIME_END - 5;
    session.handle(Event::Frame { since_last: Some(1_000_000) });
    assert_eq!(session.clock.time_us, TIME_END);
    session.handle(Event::Frame { since_last: Some(1_000_000) });
    assert_eq!(session.clock.time_us, TIME_END);
}
