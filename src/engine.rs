//! The decisions of the playback engine. The engine owns the volume, the state
//! of the one live sink and the progress of a load; it turns each command, and
//! each decode outcome during a load, into the actions that the audio side
//! carries out in order.
use vstd::prelude::*;
use rand::seq::SliceRandom;

verus! {

/// Largest volume, in thousandths of unit gain.
pub const MAX_VOLUME: u32 = 2000;

/// The volume change of one step up or down, in thousandths.
pub const VOLUME_STEP: u32 = 100;

/// The volume of a new engine, in thousandths.
pub const DEFAULT_VOLUME: u32 = 1000;

/// A request from the caller. Volumes are in thousandths of unit gain.
#[derive(Debug, PartialEq, Eq)]
pub enum PlayerCommand {
    PlaySong(String),
    PlayAlbum(Vec<String>),
    PlayShuffle(Vec<String>),
    TogglePause,
    SetVolume(i64),
    VolumeUp,
    VolumeDown,
    Stop,
    SkipNext,
    Quit,
}

/// A status report to the caller: the volume now in force, in thousandths.
#[derive(Clone, Copy, Debug, PartialEq, Eq, Structural)]
pub enum PlayerStatus {
    Volume(u32),
}

#[derive(Clone, Copy, Debug, PartialEq, Eq, Structural)]
pub enum PlaybackError {
    /// No audio output device could be opened.
    DeviceUnavailable,
    /// A file could not be decoded.
    DecodeFailure,
}

/// The state of the live sink.
#[derive(Clone, Copy, Debug, PartialEq, Eq, Structural)]
pub struct SinkState {
    pub paused: bool,
}

/// Work for the audio side, to be carried out in the order given.
#[derive(Debug, PartialEq, Eq)]
pub enum PlayerAction {
    /// Stop the live sink and release its device resources.
    ReleaseSink,
    /// Open a new sink at the given volume.
    OpenSink(u32),
    /// Decode the file and append it to the sink, with a reduced read buffer
    /// where asked; report the outcome with `decoded`.
    Decode(String, bool),
    /// Set the live sink's volume.
    SetSinkVolume(u32),
    Pause,
    Resume,
    /// Skip the track that the sink is playing.
    SkipOne,
    /// Send a status report.
    Emit(PlayerStatus),
    /// A load gave up.
    Failed(PlaybackError),
}

pub enum CommandModel {
    PlaySong(Seq<char>),
    PlayAlbum(Seq<Seq<char>>),
    PlayShuffle(Seq<Seq<char>>),
    TogglePause,
    SetVolume(i64),
    VolumeUp,
    VolumeDown,
    Stop,
    SkipNext,
    Quit,
}

pub enum ActionModel {
    ReleaseSink,
    OpenSink(u32),
    Decode(Seq<char>, bool),
    SetSinkVolume(u32),
    Pause,
    Resume,
    SkipOne,
    Emit(PlayerStatus),
    Failed(PlaybackError),
}

pub open spec fn paths_view(v: Seq<String>) -> Seq<Seq<char>> {
    v.map_values(|s: String| s@)
}

impl View for PlayerCommand {
    type V = CommandModel;

    open spec fn view(&self) -> CommandModel {
        match self {
            PlayerCommand::PlaySong(p) => CommandModel::PlaySong(p@),
            PlayerCommand::PlayAlbum(ps) => CommandModel::PlayAlbum(paths_view(ps@)),
            PlayerCommand::PlayShuffle(ps) => CommandModel::PlayShuffle(paths_view(ps@)),
            PlayerCommand::TogglePause => CommandModel::TogglePause,
            PlayerCommand::SetVolume(l) => CommandModel::SetVolume(*l),
            PlayerCommand::VolumeUp => CommandModel::VolumeUp,
            PlayerCommand::VolumeDown => CommandModel::VolumeDown,
            PlayerCommand::Stop => CommandModel::Stop,
            PlayerCommand::SkipNext => CommandModel::SkipNext,
            PlayerCommand::Quit => CommandModel::Quit,
        }
    }
}

impl View for PlayerAction {
    type V = ActionModel;

    open spec fn view(&self) -> ActionModel {
        match self {
            PlayerAction::ReleaseSink => ActionModel::ReleaseSink,
            PlayerAction::OpenSink(v) => ActionModel::OpenSink(*v),
            PlayerAction::Decode(p, reduced) => ActionModel::Decode(p@, *reduced),
            PlayerAction::SetSinkVolume(v) => ActionModel::SetSinkVolume(*v),
            PlayerAction::Pause => ActionModel::Pause,
            PlayerAction::Resume => ActionModel::Resume,
            PlayerAction::SkipOne => ActionModel::SkipOne,
            PlayerAction::Emit(s) => ActionModel::Emit(*s),
            PlayerAction::Failed(e) => ActionModel::Failed(*e),
        }
    }
}

pub open spec fn actions_view(v: Seq<PlayerAction>) -> Seq<ActionModel> {
    v.map_values(|a: PlayerAction| a@)
}

/// The progress of a load.
pub enum LoadModel {
    Idle,
    /// One file, and whether its retry with a reduced buffer has been asked for.
    Single(Seq<char>, bool),
    /// The files of a list, the position of the one being decoded, and how
    /// many of them were appended so far.
    List(Seq<Seq<char>>, nat, nat),
}

pub struct EngineModel {
    pub volume: u32,
    pub sink: Option<SinkState>,
    pub running: bool,
    pub load: LoadModel,
}

/// A level brought into the range from silence to the largest volume.
pub open spec fn clamp_level(level: int) -> u32 {
    if level < 0 {
        0
    } else if level > MAX_VOLUME {
        MAX_VOLUME
    } else {
        level as u32
    }
}

/// The release of the live sink, where there is one.
pub open spec fn release_if(s: EngineModel) -> Seq<ActionModel> {
    if s.sink is Some {
        seq![ActionModel::ReleaseSink]
    } else {
        seq![]
    }
}

/// A volume change: applied to the live sink where there is one, and reported.
pub open spec fn volume_change(s: EngineModel, v: u32) -> (EngineModel, Seq<ActionModel>) {
    (
        EngineModel { volume: v, ..s },
        if s.sink is Some {
            seq![ActionModel::SetSinkVolume(v), ActionModel::Emit(PlayerStatus::Volume(v))]
        } else {
            seq![ActionModel::Emit(PlayerStatus::Volume(v))]
        },
    )
}

/// Starting a list: the previous sink goes, a new one opens at the current
/// volume and the first file is decoded. An empty list leaves no sink.
pub open spec fn start_list(s: EngineModel, ps: Seq<Seq<char>>) -> (EngineModel, Seq<ActionModel>) {
    if ps.len() == 0 {
        (EngineModel { sink: None, ..s }, release_if(s))
    } else {
        (
            EngineModel { sink: Some(SinkState { paused: false }), load: LoadModel::List(ps, 0, 0), ..s },
            release_if(s) + seq![ActionModel::OpenSink(s.volume), ActionModel::Decode(ps[0], false)],
        )
    }
}

/// The next state and the actions for one command. A stopped engine ignores
/// every command.
pub open spec fn step(s: EngineModel, c: CommandModel) -> (EngineModel, Seq<ActionModel>) {
    if !s.running {
        (s, seq![])
    } else {
        match c {
            CommandModel::PlaySong(p) => (
                EngineModel { sink: Some(SinkState { paused: false }), load: LoadModel::Single(p, false), ..s },
                release_if(s) + seq![ActionModel::OpenSink(s.volume), ActionModel::Decode(p, false)],
            ),
            CommandModel::PlayAlbum(ps) => start_list(s, ps),
            CommandModel::PlayShuffle(ps) => start_list(s, ps),
            CommandModel::TogglePause => match s.sink {
                None => (s, seq![]),
                Some(k) => (
                    EngineModel { sink: Some(SinkState { paused: !k.paused }), ..s },
                    if k.paused { seq![ActionModel::Resume] } else { seq![ActionModel::Pause] },
                ),
            },
            CommandModel::SetVolume(l) => volume_change(s, clamp_level(l as int)),
            CommandModel::VolumeUp => volume_change(s, clamp_level(s.volume + VOLUME_STEP)),
            CommandModel::VolumeDown => volume_change(s, clamp_level(s.volume - VOLUME_STEP)),
            CommandModel::Stop => (EngineModel { sink: None, ..s }, release_if(s)),
            CommandModel::SkipNext => if s.sink is Some {
                (s, seq![ActionModel::SkipOne])
            } else {
                (s, seq![])
            },
            CommandModel::Quit => (EngineModel { sink: None, running: false, ..s }, release_if(s)),
        }
    }
}

/// The next state and the actions once the file in flight has been decoded
/// (`ok`) or has failed. A single file gets one retry with a reduced buffer; a
/// list goes on with its next file either way. A load that appended nothing
/// releases its sink.
pub open spec fn decode_step(s: EngineModel, ok: bool) -> (EngineModel, Seq<ActionModel>) {
    match s.load {
        LoadModel::Idle => (s, seq![]),
        LoadModel::Single(p, retried) => if ok {
            (EngineModel { load: LoadModel::Idle, ..s }, seq![])
        } else if !retried {
            (EngineModel { load: LoadModel::Single(p, true), ..s }, seq![ActionModel::Decode(p, true)])
        } else {
            (
                EngineModel { sink: None, load: LoadModel::Idle, ..s },
                seq![ActionModel::ReleaseSink, ActionModel::Failed(PlaybackError::DecodeFailure)],
            )
        },
        LoadModel::List(ps, k, a) => {
            let a2 = if ok { a + 1 } else { a };
            if k + 1 < ps.len() {
                (
                    EngineModel { load: LoadModel::List(ps, k + 1, a2), ..s },
                    seq![ActionModel::Decode(ps[(k + 1) as int], false)],
                )
            } else if a2 > 0 {
                (EngineModel { load: LoadModel::Idle, ..s }, seq![])
            } else {
                (EngineModel { sink: None, load: LoadModel::Idle, ..s }, seq![ActionModel::ReleaseSink])
            }
        },
    }
}

/// The state after a run of commands.
pub open spec fn run_commands(s: EngineModel, cmds: Seq<CommandModel>) -> EngineModel
    decreases cmds.len(),
{
    if cmds.len() == 0 {
        s
    } else {
        step(run_commands(s, cmds.drop_last()), cmds.last()).0
    }
}

/// The state and the actions after a run of decode outcomes.
pub open spec fn feed(s: EngineModel, oks: Seq<bool>) -> (EngineModel, Seq<ActionModel>)
    decreases oks.len(),
{
    if oks.len() == 0 {
        (s, seq![])
    } else {
        let first = decode_step(s, oks[0]);
        let rest = feed(first.0, oks.drop_first());
        (rest.0, first.1 + rest.1)
    }
}

/// How many outcomes are successes.
pub open spec fn count_ok(oks: Seq<bool>) -> nat
    decreases oks.len(),
{
    if oks.len() == 0 {
        0
    } else {
        (if oks[0] { 1nat } else { 0nat }) + count_ok(oks.drop_first())
    }
}

/// A first-attempt decode of each path, in order.
pub open spec fn list_decodes(ps: Seq<Seq<char>>) -> Seq<ActionModel> {
    ps.map_values(|p: Seq<char>| ActionModel::Decode(p, false))
}

/// A volume set above the largest is reported, and held, as the largest.
pub proof fn law_volume_set_clamped(s: EngineModel, level: i64)
    requires
        s.running,
        level > MAX_VOLUME,
    ensures
        step(s, CommandModel::SetVolume(level)).0.volume == MAX_VOLUME,
        step(s, CommandModel::SetVolume(level)).1.last() == ActionModel::Emit(PlayerStatus::Volume(MAX_VOLUME)),
{
}

/// Stepping the volume down from silence stays at silence and reports it, and
/// any number of such steps leaves the volume at silence.
pub proof fn law_volume_down_floor(s: EngineModel, n: nat)
    requires
        s.volume == 0,
    ensures
        step(s, CommandModel::VolumeDown).0.volume == 0,
        s.running ==> step(s, CommandModel::VolumeDown).1.last() == ActionModel::Emit(PlayerStatus::Volume(0)),
        run_commands(s, Seq::new(n, |i: int| CommandModel::VolumeDown)).volume == 0,
    decreases n,
{
    if n > 0 {
        let downs = Seq::new(n, |i: int| CommandModel::VolumeDown);
        assert(downs.drop_last() =~= Seq::new((n - 1) as nat, |i: int| CommandModel::VolumeDown));
        law_volume_down_floor(s, (n - 1) as nat);
        let before = run_commands(s, downs.drop_last());
        assert(step(before, CommandModel::VolumeDown).0.volume == 0);
    }
}

/// Pausing right after a stop changes nothing and asks for nothing.
pub proof fn law_stop_then_toggle_pause(s: EngineModel)
    ensures
        step(step(s, CommandModel::Stop).0, CommandModel::TogglePause) == (step(s, CommandModel::Stop).0, Seq::<ActionModel>::empty()),
{
}

/// After a quit the engine ignores every command.
pub proof fn law_quit_is_final(s: EngineModel, c: CommandModel)
    ensures
        step(step(s, CommandModel::Quit).0, c) == (step(s, CommandModel::Quit).0, Seq::<ActionModel>::empty()),
{
}

proof fn lemma_feed_list(s: EngineModel, ps: Seq<Seq<char>>, k: nat, a: nat, oks: Seq<bool>)
    requires
        s.load == LoadModel::List(ps, k, a),
        k < ps.len(),
        oks.len() == ps.len() - k,
    ensures
        feed(s, oks).1 == list_decodes(ps.subrange(k + 1int, ps.len() as int)) + if a + count_ok(oks) == 0 {
            seq![ActionModel::ReleaseSink]
        } else {
            Seq::<ActionModel>::empty()
        },
        feed(s, oks).0 == (EngineModel {
            sink: if a + count_ok(oks) > 0 { s.sink } else { None },
            load: LoadModel::Idle,
            ..s
        }),
    decreases oks.len(),
{
    let a2 = if oks[0] { a + 1 } else { a };
    let first = decode_step(s, oks[0]);
    let rest = oks.drop_first();
    if k + 1 < ps.len() {
        lemma_feed_list(first.0, ps, k + 1, a2, rest);
        assert(list_decodes(ps.subrange(k + 1int, ps.len() as int)) =~= seq![ActionModel::Decode(ps[k + 1int], false)]
            + list_decodes(ps.subrange(k + 2int, ps.len() as int)));
        assert(feed(s, oks).1 =~= first.1 + feed(first.0, rest).1);
    } else {
        assert(rest.len() == 0);
        assert(count_ok(rest) == 0);
        assert(feed(first.0, rest) == (first.0, Seq::<ActionModel>::empty()));
        assert(count_ok(oks) == (if oks[0] { 1nat } else { 0nat }));
        assert(list_decodes(ps.subrange(k + 1int, ps.len() as int)) =~= Seq::<ActionModel>::empty());
        assert(feed(s, oks).1 =~= first.1);
    }
}

/// A list is decoded file by file in its order. A file that fails to decode
/// is passed over and the files after it are still decoded; the sink stays
/// exactly when some file was appended.
pub proof fn law_list_skips_failures(s: EngineModel, ps: Seq<Seq<char>>, oks: Seq<bool>)
    requires
        s.running,
        s.load is Idle,
        ps.len() > 0,
        oks.len() == ps.len(),
    ensures
        ({
            let started = step(s, CommandModel::PlayAlbum(ps));
            let done = feed(started.0, oks);
            &&& started.1 + done.1 == release_if(s) + seq![ActionModel::OpenSink(s.volume)]
                + list_decodes(ps) + if count_ok(oks) == 0 {
                seq![ActionModel::ReleaseSink]
            } else {
                Seq::<ActionModel>::empty()
            }
            &&& (done.0.sink is Some <==> count_ok(oks) > 0)
            &&& done.0.load is Idle
        }),
{
    let started = step(s, CommandModel::PlayAlbum(ps));
    lemma_feed_list(started.0, ps, 0, 0, oks);
    assert(list_decodes(ps) =~= seq![ActionModel::Decode(ps[0], false)] + list_decodes(ps.subrange(1, ps.len() as int)));
    let tail = if count_ok(oks) == 0 {
        seq![ActionModel::ReleaseSink]
    } else {
        Seq::<ActionModel>::empty()
    };
    assert(started.1 + feed(started.0, oks).1 =~= release_if(s) + seq![ActionModel::OpenSink(s.volume)] + list_decodes(ps) + tail);
}

/// The progress of a load.
enum Load {
    Idle,
    Single(String, bool),
    List(Vec<String>, usize, usize),
}

/// The playback engine's state: volume, live sink, whether it still runs, and
/// the load in progress.
pub struct PlaybackEngine {
    volume: u32,
    sink: Option<SinkState>,
    running: bool,
    load: Load,
}

impl View for PlaybackEngine {
    type V = EngineModel;

    closed spec fn view(&self) -> EngineModel {
        EngineModel {
            volume: self.volume,
            sink: self.sink,
            running: self.running,
            load: match self.load {
                Load::Idle => LoadModel::Idle,
                Load::Single(p, r) => LoadModel::Single(p@, r),
                Load::List(ps, k, a) => LoadModel::List(paths_view(ps@), k as nat, a as nat),
            },
        }
    }
}

/// The volume is in range, and a load in progress has a sink and a file in flight.
pub open spec fn engine_ok(s: EngineModel) -> bool {
    &&& s.volume <= MAX_VOLUME
    &&& match s.load {
        LoadModel::Idle => true,
        LoadModel::Single(_, _) => s.sink is Some,
        LoadModel::List(ps, k, a) => s.sink is Some && k < ps.len() && a <= k,
    }
}

/// Relies on rand's `SliceRandom::shuffle` with the thread-local generator:
/// the paths come back in some order, each one kept.
#[verifier::external_body]
fn shuffle_paths(paths: &mut Vec<String>)
    ensures
        paths_view(final(paths)@).to_multiset() == paths_view(old(paths)@).to_multiset(),
{
    paths.shuffle(&mut rand::rng())
}

impl PlaybackEngine {
    /// A running engine at the default volume, with no sink.
    pub fn new() -> (r: Self)
        ensures
            r@ == (EngineModel { volume: DEFAULT_VOLUME, sink: None, running: true, load: LoadModel::Idle }),
    {
        PlaybackEngine { volume: DEFAULT_VOLUME, sink: None, running: true, load: Load::Idle }
    }

    /// Whether the engine still takes commands.
    pub fn is_running(&self) -> (r: bool)
        ensures
            r == self@.running,
    {
        self.running
    }

    /// Whether a load is waiting for a decode outcome.
    pub fn is_loading(&self) -> (r: bool)
        ensures
            r == !(self@.load is Idle),
    {
        match self.load {
            Load::Idle => false,
            _ => true,
        }
    }

    /// The volume in force, in thousandths.
    pub fn volume(&self) -> (r: u32)
        ensures
            r == self@.volume,
    {
        self.volume
    }

    /// The live sink's state, if there is one.
    pub fn sink(&self) -> (r: Option<SinkState>)
        ensures
            r == self@.sink,
    {
        self.sink
    }

    /// Carries out one command while no load is in progress. The actions
    /// are those of `step`; a shuffled list is played in an order of the
    /// shuffle's choosing, each path kept.
    pub fn handle(&mut self, cmd: PlayerCommand) -> (r: Vec<PlayerAction>)
        requires
            engine_ok(old(self)@),
            old(self)@.load is Idle,
        ensures
            engine_ok(final(self)@),
            match cmd@ {
                CommandModel::PlayShuffle(ps) => exists|q: Seq<Seq<char>>|
                    q.to_multiset() == ps.to_multiset()
                        && (final(self)@, actions_view(r@)) == step(old(self)@, CommandModel::PlayAlbum(q)),
                _ => (final(self)@, actions_view(r@)) == step(old(self)@, cmd@),
            },
    {
        let mut out: Vec<PlayerAction> = Vec::new();
        assert(actions_view(out@) =~= seq![]);
        if !self.running {
            proof {
                if let CommandModel::PlayShuffle(ps) = cmd@ {
                    assert(step(old(self)@, CommandModel::PlayAlbum(ps)) == (self@, actions_view(out@)));
                    assert(ps.to_multiset() == ps.to_multiset());
                    assert(exists|q: Seq<Seq<char>>|
                        #[trigger] q.to_multiset() == ps.to_multiset()
                            && (self@, actions_view(out@)) == step(old(self)@, CommandModel::PlayAlbum(q)));
                }
            }
            return out;
        }
        match cmd {
            PlayerCommand::PlaySong(p) => {
                self.push_release(&mut out);
                out.push(PlayerAction::OpenSink(self.volume));
                out.push(PlayerAction::Decode(p.clone(), false));
                self.sink = Some(SinkState { paused: false });
                self.load = Load::Single(p, false);
                assert(actions_view(out@) =~= release_if(old(self)@) + seq![
                    ActionModel::OpenSink(old(self)@.volume),
                    ActionModel::Decode(p@, false),
                ]);
            },
            PlayerCommand::PlayAlbum(ps) => {
                self.start_list(ps, &mut out);
            },
            PlayerCommand::PlayShuffle(ps) => {
                let mut ps = ps;
                let ghost given = paths_view(ps@);
                shuffle_paths(&mut ps);
                self.start_list(ps, &mut out);
                assert(exists|q: Seq<Seq<char>>|
                    q.to_multiset() == given.to_multiset()
                        && (self@, actions_view(out@)) == step(old(self)@, CommandModel::PlayAlbum(q))) by {
                    assert(step(old(self)@, CommandModel::PlayAlbum(paths_view(ps@))) == (self@, actions_view(out@)));
                }
            },
            PlayerCommand::TogglePause => {
                match self.sink {
                    None => {},
                    Some(k) => {
                        if k.paused {
                            out.push(PlayerAction::Resume);
                        } else {
                            out.push(PlayerAction::Pause);
                        }
                        self.sink = Some(SinkState { paused: !k.paused });
                        assert(actions_view(out@) =~= if k.paused {
                            seq![ActionModel::Resume]
                        } else {
                            seq![ActionModel::Pause]
                        });
                    },
                }
            },
            PlayerCommand::SetVolume(level) => {
                let v = if level < 0 {
                    0
                } else if level > MAX_VOLUME as i64 {
                    MAX_VOLUME
                } else {
                    level as u32
                };
                self.apply_volume(v, &mut out);
            },
            PlayerCommand::VolumeUp => {
                let v = if self.volume > MAX_VOLUME - VOLUME_STEP {
                    MAX_VOLUME
                } else {
                    self.volume + VOLUME_STEP
                };
                self.apply_volume(v, &mut out);
            },
            PlayerCommand::VolumeDown => {
                let v = if self.volume < VOLUME_STEP {
                    0
                } else {
                    self.volume - VOLUME_STEP
                };
                self.apply_volume(v, &mut out);
            },
            PlayerCommand::Stop => {
                self.push_release(&mut out);
                self.sink = None;
            },
            PlayerCommand::SkipNext => {
                if self.sink.is_some() {
                    out.push(PlayerAction::SkipOne);
                    assert(actions_view(out@) =~= seq![ActionModel::SkipOne]);
                }
            },
            PlayerCommand::Quit => {
                self.push_release(&mut out);
                self.sink = None;
                self.running = false;
            },
        }
        out
    }

    /// Starts a list on a running engine with no load in progress.
    fn start_list(&mut self, ps: Vec<String>, out: &mut Vec<PlayerAction>)
        requires
            engine_ok(old(self)@),
            old(self)@.load is Idle,
            old(self)@.running,
            old(out)@.len() == 0,
        ensures
            engine_ok(final(self)@),
            (final(self)@, actions_view(final(out)@)) == start_list(old(self)@, paths_view(ps@)),
    {
        self.push_release(out);
        if ps.len() == 0 {
            self.sink = None;
        } else {
            out.push(PlayerAction::OpenSink(self.volume));
            out.push(PlayerAction::Decode(ps[0].clone(), false));
            assert(actions_view(out@) =~= release_if(old(self)@) + seq![
                ActionModel::OpenSink(old(self)@.volume),
                ActionModel::Decode(paths_view(ps@)[0], false),
            ]);
            self.sink = Some(SinkState { paused: false });
            self.load = Load::List(ps, 0, 0);
        }
    }

    /// Sets the volume, applies it to the live sink and reports it.
    fn apply_volume(&mut self, v: u32, out: &mut Vec<PlayerAction>)
        requires
            v <= MAX_VOLUME,
            old(out)@.len() == 0,
        ensures
            (final(self)@, actions_view(final(out)@)) == volume_change(old(self)@, v),
    {
        self.volume = v;
        if self.sink.is_some() {
            out.push(PlayerAction::SetSinkVolume(v));
        }
        out.push(PlayerAction::Emit(PlayerStatus::Volume(v)));
        assert(actions_view(out@) =~= volume_change(old(self)@, v).1);
    }

    /// Takes in the outcome of the decode in flight: `ok` where the file was
    /// decoded and appended to the sink.
    pub fn decoded(&mut self, ok: bool) -> (r: Vec<PlayerAction>)
        requires
            engine_ok(old(self)@),
        ensures
            engine_ok(final(self)@),
            (final(self)@, actions_view(r@)) == decode_step(old(self)@, ok),
    {
        let mut out: Vec<PlayerAction> = Vec::new();
        let mut load = Load::Idle;
        core::mem::swap(&mut self.load, &mut load);
        match load {
            Load::Idle => {},
            Load::Single(p, retried) => {
                if ok {
                } else if !retried {
                    out.push(PlayerAction::Decode(p.clone(), true));
                    self.load = Load::Single(p, true);
                } else {
                    out.push(PlayerAction::ReleaseSink);
                    out.push(PlayerAction::Failed(PlaybackError::DecodeFailure));
                    self.sink = None;
                }
            },
            Load::List(ps, k, a) => {
                assert(old(self)@.load == LoadModel::List(paths_view(ps@), k as nat, a as nat));
                let n = ps.len();
                assert(k < n);
                let a2 = if ok { a + 1 } else { a };
                if k + 1 < n {
                    out.push(PlayerAction::Decode(ps[k + 1].clone(), false));
                    self.load = Load::List(ps, k + 1, a2);
                } else if a2 > 0 {
                } else {
                    out.push(PlayerAction::ReleaseSink);
                    self.sink = None;
                }
            },
        }
        assert(actions_view(out@) =~= decode_step(old(self)@, ok).1);
        out
    }

    fn push_release(&self, out: &mut Vec<PlayerAction>)
        ensures
            actions_view(final(out)@) == actions_view(old(out)@) + release_if(self@),
    {
        if self.sink.is_some() {
            out.push(PlayerAction::ReleaseSink);
        }
        assert(actions_view(out@) =~= actions_view(old(out)@) + release_if(self@));
    }
}

} // verus!
