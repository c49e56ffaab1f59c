//! The state of the application's screens and how each message changes it:
//! the decisions of the interface, apart from drawing and running tasks.

use vstd::prelude::*;
use std::path::PathBuf;
use crate::files::{JournalFile, sort_journals, sorted_by_name_desc};
use crate::frags::{Frag, FragView};
use crate::journals::frag_views;
use crate::plot::{
    PlotState, PlotView, plot_after, counts_fit, drawable, is_series, frag_day, counted,
    lemma_drawable_from_frags, lemma_counted_days, lemma_drawable_two_days,
};
use crate::time::day_in_range;
use crate::settings::{Settings, SettingsView};
use crate::statistics::{Statistics, empty_statistics, record_all};

verus! {

/// The screen on display.
#[derive(Debug, Clone, Copy, PartialEq, Eq)]
pub enum Screen {
    Main,
    Settings,
}

/// The messages of the settings screen.
#[derive(Debug, Clone)]
pub enum SettingsMessage {
    ChooseJournalsPath,
    ChangeJournalsPath(Option<PathBuf>),
    Back,
}

/// What the settings screen asks the application to do.
#[derive(Debug)]
pub enum SettingsTask {
    /// Ask the user for a directory, and answer with `ChangeJournalsPath`.
    PickDirectory,
    /// Send this message back to the application.
    Send(SettingsMessage),
}

/// The settings screen, which holds no state of its own.
#[derive(Debug)]
pub struct SettingsState {}

impl SettingsState {
    /// The settings screen.
    pub fn new() -> (s: SettingsState) {
        SettingsState {}
    }

    /// Choosing the journals directory opens a directory picker; every other
    /// message goes back to the application.
    pub fn update(&mut self, message: SettingsMessage) -> (task: SettingsTask)
        ensures
            match message {
                SettingsMessage::ChooseJournalsPath => task is PickDirectory,
                _ => task == SettingsTask::Send(message),
            },
    {
        match message {
            SettingsMessage::ChooseJournalsPath => SettingsTask::PickDirectory,
            message => SettingsTask::Send(message),
        }
    }
}

/// The messages of the main screen, apart from those of the plot widget.
#[derive(Debug, Clone)]
pub enum MainMessage {
    /// Scan the journals directory.
    Scan,
    /// Open the settings screen.
    Settings,
    /// The files found in the journals directory.
    Journals(Vec<JournalFile>),
    /// The frags of one journal.
    Frags(Vec<Frag>),
    /// A task failed.
    Error,
}

/// What the main screen asks the application to do.
#[derive(Debug)]
pub enum MainTask {
    Nothing,
    /// List the journals of this directory and answer with `Journals`.
    ListJournals(PathBuf),
    /// Scan these journals, in this order, and answer with `Frags` for each
    /// journal that holds frags.
    ScanJournals(Vec<JournalFile>),
    /// Draw the plot anew with these series of kills and deaths.
    DrawPlot(Vec<(i64, i32)>, Vec<(i64, i32)>),
}

/// The main screen: every frag found, and the statistics and the per-day
/// counts of exactly these frags.
#[derive(Debug)]
pub struct MainState {
    frags: Vec<Frag>,
    statistics: Statistics,
    plot: PlotState,
}

/// What handling `message` on the main screen does, from the frags `before`
/// to the frags `after`, asking for `task`: scanning asks to list the
/// journals directory; listed journals are to be scanned in the order given;
/// the frags of a journal, where there are some, are added after those found
/// before, and the plot is to be drawn anew exactly where it has enough days,
/// with the series of all frags found; every other message changes nothing.
pub open spec fn main_update_done(
    before: Seq<FragView>,
    settings: SettingsView,
    message: MainMessage,
    after: Seq<FragView>,
    task: MainTask,
) -> bool {
    match message {
        MainMessage::Scan => after == before && task == MainTask::ListJournals(
            settings.journals_path,
        ),
        MainMessage::Journals(files) => after == before && task == MainTask::ScanJournals(files),
        MainMessage::Frags(fs) => if fs@.len() == 0 {
            after == before && task is Nothing
        } else {
            &&& after == before + frag_views(fs@)
            &&& (task is DrawPlot <==> drawable(plot_after(empty_plot(), after)))
            &&& (task is DrawPlot || task is Nothing)
            &&& (task matches MainTask::DrawPlot(kills, deaths) ==> is_series(
                plot_after(empty_plot(), after).kills,
                kills@,
                1,
            ) && is_series(plot_after(empty_plot(), after).deaths, deaths@, -1))
        },
        _ => after == before && task is Nothing,
    }
}

/// The message that answers a listing of the journals directory: the
/// journals ordered by decreasing name (newest first), or `Error` where the
/// listing failed.
pub fn journals_listed<E>(listed: Result<Vec<JournalFile>, E>) -> (message: MainMessage)
    ensures
        match listed {
            Ok(files) => message matches MainMessage::Journals(sorted) && sorted_by_name_desc(
                files@,
                sorted@,
            ),
            Err(_) => message is Error,
        },
{
    match listed {
        Ok(files) => MainMessage::Journals(sort_journals(files)),
        Err(_) => MainMessage::Error,
    }
}

/// After a non-empty batch of frags, the plot is drawn anew exactly when
/// two kills of all frags found so far fall on different days, or two deaths
/// do.
pub proof fn lemma_redraw_two_days(
    before: Seq<FragView>,
    settings: SettingsView,
    fs: Vec<Frag>,
    after: Seq<FragView>,
    task: MainTask,
)
    requires
        main_update_done(before, settings, MainMessage::Frags(fs), after, task),
        fs@.len() > 0,
        forall|i: int| 0 <= i < after.len() ==> day_in_range(#[trigger] frag_day(after[i])),
    ensures
        task is DrawPlot <==> (exists|i: int, j: int|
            0 <= i < after.len() && 0 <= j < after.len() && after[i].is_kill() && after[j].is_kill()
                && frag_day(after[i]) != frag_day(after[j])) || (exists|i: int, j: int|
            0 <= i < after.len() && 0 <= j < after.len() && !after[i].is_kill()
                && !after[j].is_kill() && frag_day(after[i]) != frag_day(after[j])),
{
    lemma_drawable_from_frags(after);
}

/// Whether the plot is drawn anew after a non-empty batch depends only on
/// the frags found by then, not on those found before the batch.
pub proof fn lemma_redraw_ignores_history(
    before1: Seq<FragView>,
    before2: Seq<FragView>,
    settings1: SettingsView,
    settings2: SettingsView,
    fs1: Vec<Frag>,
    fs2: Vec<Frag>,
    after: Seq<FragView>,
    task1: MainTask,
    task2: MainTask,
)
    requires
        main_update_done(before1, settings1, MainMessage::Frags(fs1), after, task1),
        main_update_done(before2, settings2, MainMessage::Frags(fs2), after, task2),
        fs1@.len() > 0,
        fs2@.len() > 0,
    ensures
        task1 is DrawPlot <==> task2 is DrawPlot,
{
}

/// Once the plot can be drawn, every later non-empty batch draws it anew.
pub proof fn lemma_drawn_plot_stays_drawn(
    before: Seq<FragView>,
    settings: SettingsView,
    fs: Vec<Frag>,
    after: Seq<FragView>,
    task: MainTask,
)
    requires
        main_update_done(before, settings, MainMessage::Frags(fs), after, task),
        fs@.len() > 0,
        drawable(plot_after(empty_plot(), before)),
    ensures
        task is DrawPlot,
{
    let added = frag_views(fs@);
    assert(after == before + added);
    lemma_counted_days(before, true);
    lemma_counted_days(before, false);
    lemma_counted_days(after, true);
    lemma_counted_days(after, false);
    let old_plot = plot_after(empty_plot(), before);
    let new_plot = plot_after(empty_plot(), after);
    lemma_drawable_two_days(old_plot);
    lemma_drawable_two_days(new_plot);
    assert forall|d: i32, kill: bool| #[trigger] counted(Map::empty(), before, kill).contains_key(d)
        implies counted(Map::empty(), after, kill).contains_key(d) by {
        let i = choose|i: int|
            0 <= i < before.len() && before[i].is_kill() == kill && #[trigger] frag_day(before[i]) == d as int;
        assert(after[i] == before[i]);
        assert(0 <= i < after.len() && after[i].is_kill() == kill && frag_day(after[i]) == d as int);
    }
    assert(old_plot.kills == counted(Map::empty(), before, true));
    assert(old_plot.deaths == counted(Map::empty(), before, false));
    assert(new_plot.kills == counted(Map::empty(), after, true));
    assert(new_plot.deaths == counted(Map::empty(), after, false));
}

/// The per-day counts of no frag.
pub open spec fn empty_plot() -> PlotView {
    PlotView { kills: Map::empty(), deaths: Map::empty() }
}

/// Whether counting `fs` after the frags `seen` keeps every count within its
/// integer type.
pub open spec fn fits_after(seen: Seq<FragView>, fs: Seq<FragView>) -> bool {
    &&& record_all(empty_statistics(), seen).total_frags + fs.len() <= usize::MAX
    &&& counts_fit(plot_after(empty_plot(), seen).kills, fs, true)
    &&& counts_fit(plot_after(empty_plot(), seen).deaths, fs, false)
}

impl View for MainState {
    type V = Seq<FragView>;

    closed spec fn view(&self) -> Seq<FragView> {
        frag_views(self.frags@)
    }
}

impl MainState {
    #[verifier::type_invariant]
    spec fn inv(self) -> bool {
        &&& self.statistics@ == record_all(empty_statistics(), frag_views(self.frags@))
        &&& self.plot@ == plot_after(empty_plot(), frag_views(self.frags@))
        &&& counts_fit(empty_plot().kills, frag_views(self.frags@), true)
        &&& counts_fit(empty_plot().deaths, frag_views(self.frags@), false)
    }

    /// The main screen before any scan.
    pub fn new() -> (s: MainState)
        ensures
            s@ == Seq::<FragView>::empty(),
    {
        let frags: Vec<Frag> = Vec::new();
        let statistics = Statistics::new();
        let plot = PlotState::new();
        assert(frag_views(frags@) =~= Seq::<FragView>::empty());
        assert(plot@.kills =~= plot_after(empty_plot(), Seq::<FragView>::empty()).kills);
        assert(plot@.deaths =~= plot_after(empty_plot(), Seq::<FragView>::empty()).deaths);
        MainState { frags, statistics, plot }
    }

    /// The frags found, in the order they arrived.
    pub fn frags(&self) -> (f: &Vec<Frag>)
        ensures
            frag_views(f@) == self@,
    {
        &self.frags
    }

    /// The statistics of the frags found.
    pub fn statistics(&self) -> (s: &Statistics)
        ensures
            s@ == record_all(empty_statistics(), self@),
    {
        proof {
            use_type_invariant(self);
        }
        &self.statistics
    }

    /// The per-day counts of the frags found.
    pub fn plot(&self) -> (p: &PlotState)
        ensures
            p@ == plot_after(empty_plot(), self@),
    {
        proof {
            use_type_invariant(self);
        }
        &self.plot
    }

    /// Whether scanning is offered: only while no frag has been found.
    pub fn can_scan(&self) -> (b: bool)
        ensures
            b == (self@.len() == 0),
    {
        self.frags.len() == 0
    }

    /// Adds frags to the list, the statistics and the counts per day.
    fn add_frags(&mut self, frags: Vec<Frag>)
        requires
            fits_after(old(self)@, frag_views(frags@)),
        ensures
            final(self)@ == old(self)@ + frag_views(frags@),
    {
        proof {
            use_type_invariant(&*self);
        }
        let ghost seen = frag_views(self.frags@);
        let ghost added = frag_views(frags@);
        let mut current = MainState::new();
        std::mem::swap(&mut current, self);
        proof {
            use_type_invariant(&current);
        }
        let MainState { frags: mut list, mut statistics, mut plot } = current;
        statistics.update(frags.as_slice());
        plot.frags(frags.clone());
        let mut more = frags;
        list.append(&mut more);
        proof {
            assert(frag_views(list@) =~= seen + added);
            crate::statistics::lemma_record_all_append(empty_statistics(), seen, added);
            crate::plot::lemma_counts_fit_append(empty_plot().kills, seen, added, true);
            crate::plot::lemma_counts_fit_append(empty_plot().deaths, seen, added, false);
            crate::plot::lemma_plot_after_append(empty_plot(), seen, added);
        }
        *self = MainState { frags: list, statistics, plot };
    }

    /// Handles a message of the main screen. Scanning asks to list the
    /// journals directory of `settings`; the listed journals are scanned in
    /// the order given (see `journals_listed`); the frags of a journal, where there are some, are added and the
    /// plot is drawn anew where it has enough days.
    pub fn update(&mut self, settings: &Settings, message: MainMessage) -> (task: MainTask)
        requires
            message matches MainMessage::Frags(fs) ==> fits_after(old(self)@, frag_views(fs@)),
        ensures
            main_update_done(old(self)@, settings@, message, final(self)@, task),
    {
        match message {
            MainMessage::Scan => MainTask::ListJournals(settings.journals_path()),
            MainMessage::Journals(files) => MainTask::ScanJournals(files),
            MainMessage::Frags(frags) => {
                if frags.len() == 0 {
                    return MainTask::Nothing;
                }
                self.add_frags(frags);
                proof {
                    use_type_invariant(&*self);
                }
                match self.plot.series() {
                    Some((kills, deaths)) => MainTask::DrawPlot(kills, deaths),
                    None => MainTask::Nothing,
                }
            },
            _ => MainTask::Nothing,
        }
    }
}

/// The messages of the application.
#[derive(Debug, Clone)]
pub enum Message {
    Main(MainMessage),
    Settings(SettingsMessage),
    Screen(Screen),
}

/// The state of the application: both screens and the one on display.
#[derive(Debug)]
pub struct State {
    main: MainState,
    settings: SettingsState,
    screen: Screen,
}

/// What the application state holds: the screen on display and the frags
/// of the main screen.
pub struct StateView {
    pub screen: Screen,
    pub frags: Seq<FragView>,
}

impl View for State {
    type V = StateView;

    closed spec fn view(&self) -> StateView {
        StateView { screen: self.screen, frags: self.main@ }
    }
}

impl State {
    /// The application at start: the main screen, with no frag.
    pub fn new() -> (s: State)
        ensures
            s@.screen == Screen::Main,
            s@.frags == Seq::<FragView>::empty(),
    {
        State { main: MainState::new(), settings: SettingsState::new(), screen: Screen::Main }
    }

    /// The screen on display.
    pub fn screen(&self) -> (s: Screen)
        ensures
            s == self@.screen,
    {
        self.screen
    }

    /// The main screen.
    pub fn main(&self) -> (m: &MainState)
        ensures
            m@ == self@.frags,
    {
        &self.main
    }

    /// Handles a message: the settings button of the main screen and a
    /// change of screen switch screens; other messages of the main screen go
    /// to it; messages of the settings screen change nothing.
    pub fn update(&mut self, settings: &Settings, message: Message) -> (task: MainTask)
        requires
            message matches Message::Main(MainMessage::Frags(fs)) ==> fits_after(
                old(self)@.frags,
                frag_views(fs@),
            ),
        ensures
            match message {
                Message::Main(MainMessage::Settings) => final(self)@ == (StateView {
                    screen: Screen::Settings,
                    ..old(self)@
                }) && task is Nothing,
                Message::Main(m) => final(self)@.screen == old(self)@.screen && main_update_done(
                    old(self)@.frags,
                    settings@,
                    m,
                    final(self)@.frags,
                    task,
                ),
                Message::Settings(_) => final(self)@ == old(self)@ && task is Nothing,
                Message::Screen(screen) => final(self)@ == (StateView { screen, ..old(self)@ })
                    && task is Nothing,
            },
    {
        match message {
            Message::Main(message) => match message {
                MainMessage::Settings => {
                    self.screen = Screen::Settings;
                    MainTask::Nothing
                },
                message => self.main.update(settings, message),
            },
            Message::Settings(_) => MainTask::Nothing,
            Message::Screen(screen) => {
                self.screen = screen;
                MainTask::Nothing
            },
        }
    }
}

} // verus!
