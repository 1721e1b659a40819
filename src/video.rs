//! Decoder-side contract: log levels and source status codes exchanged
//! over the callback interface, frame buffer sizes, and the registry of
//! monitored sources kept by the stream side.
use vstd::prelude::*;
use vstd::string::*;

verus! {

/// Log level passed across the decoder interface (0 = regular, 1 = debug).
#[derive(Clone, Copy, Debug, PartialEq, Eq, Structural)]
pub enum LogLevel {
    Regular,
    Debug,
}

impl LogLevel {
    pub open spec fn spec_code(self) -> i32 {
        match self {
            LogLevel::Regular => 0,
            LogLevel::Debug => 1,
        }
    }

    pub fn code(&self) -> (r: i32)
        ensures
            r == self.spec_code(),
    {
        match self {
            LogLevel::Regular => 0,
            LogLevel::Debug => 1,
        }
    }

    pub fn from_code(code: i32) -> (r: Option<LogLevel>)
        ensures
            r matches Some(l) ==> l.spec_code() == code,
            r is None <==> code != 0 && code != 1,
    {
        if code == 0 {
            Some(LogLevel::Regular)
        } else if code == 1 {
            Some(LogLevel::Debug)
        } else {
            None
        }
    }
}

/// Status of a source reported by the decoder.
#[derive(Clone, Copy, Debug, PartialEq, Eq, Structural)]
pub enum SourceStatus {
    Active,
    NotStreaming,
    NotFound,
    ConnectionError,
    DecodeError,
}

impl SourceStatus {
    pub open spec fn spec_code(self) -> i32 {
        match self {
            SourceStatus::Active => 0,
            SourceStatus::NotStreaming => 1,
            SourceStatus::NotFound => 2,
            SourceStatus::ConnectionError => 3,
            SourceStatus::DecodeError => 4,
        }
    }

    pub fn code(&self) -> (r: i32)
        ensures
            r == self.spec_code(),
    {
        match self {
            SourceStatus::Active => 0,
            SourceStatus::NotStreaming => 1,
            SourceStatus::NotFound => 2,
            SourceStatus::ConnectionError => 3,
            SourceStatus::DecodeError => 4,
        }
    }

    /// The status with the given code, if any (0 to 4).
    pub fn from_code(code: i32) -> (r: Option<SourceStatus>)
        ensures
            r matches Some(s) ==> s.spec_code() == code,
            r is None <==> !(0 <= code <= 4),
    {
        if code == 0 {
            Some(SourceStatus::Active)
        } else if code == 1 {
            Some(SourceStatus::NotStreaming)
        } else if code == 2 {
            Some(SourceStatus::NotFound)
        } else if code == 3 {
            Some(SourceStatus::ConnectionError)
        } else if code == 4 {
            Some(SourceStatus::DecodeError)
        } else {
            None
        }
    }
}

pub open spec fn spec_status_description(code: i32) -> Seq<char> {
    if code == 0 { "OK - Stream is active"@ }
    else if code == 1 { "ERROR - Not streaming"@ }
    else if code == 2 { "ERROR - Source not found"@ }
    else if code == 3 { "ERROR - Connection error"@ }
    else if code == 4 { "ERROR - Decode error"@ }
    else { "UNKNOWN status"@ }
}

/// Human-readable text of a status code reported by the decoder.
pub fn status_description(code: i32) -> (r: &'static str)
    ensures
        r@ == spec_status_description(code),
{
    if code == 0 {
        "OK - Stream is active"
    } else if code == 1 {
        "ERROR - Not streaming"
    } else if code == 2 {
        "ERROR - Source not found"
    } else if code == 3 {
        "ERROR - Connection error"
    } else if code == 4 {
        "ERROR - Decode error"
    } else {
        "UNKNOWN status"
    }
}

/// Byte length `3 * width * height` of an interleaved RGB8 frame handed
/// over by the decoder; `None` for a negative dimension or a size that does
/// not fit in `usize`.
pub fn frame_byte_len(width: i32, height: i32) -> (r: Option<usize>)
    ensures
        r is None <==> width < 0 || height < 0 || 3 * width * height > usize::MAX,
        r matches Some(n) ==> n == 3 * width * height,
{
    if width < 0 || height < 0 {
        return None;
    }
    proof {
        assert(3 * (width as u128) * (height as u128) <= 3 * 0x8000_0000 * 0x8000_0000) by (nonlinear_arith)
            requires 0 <= width <= 0x7fff_ffff, 0 <= height <= 0x7fff_ffff;
    }
    let n: u128 = 3 * (width as u128) * (height as u128);
    if n > usize::MAX as u128 {
        return None;
    }
    Some(n as usize)
}

/// Stream-side state: the log level, whether the frame callbacks were
/// registered, and the sources with a running monitor (each at most once).
pub struct StreamManager {
    log_level: LogLevel,
    callbacks_set: bool,
    sources: Vec<i32>,
}

impl StreamManager {
    pub closed spec fn spec_log_level(&self) -> LogLevel {
        self.log_level
    }

    pub closed spec fn spec_callbacks_set(&self) -> bool {
        self.callbacks_set
    }

    pub closed spec fn spec_sources(&self) -> Seq<i32> {
        self.sources@
    }

    pub open spec fn wf(&self) -> bool {
        self.spec_sources().no_duplicates()
    }

    pub fn new() -> (r: Self)
        ensures
            r.wf(),
            r.spec_log_level() == LogLevel::Regular,
            !r.spec_callbacks_set(),
            r.spec_sources() == Seq::<i32>::empty(),
    {
        StreamManager { log_level: LogLevel::Regular, callbacks_set: false, sources: Vec::new() }
    }

    pub fn set_log_level(&mut self, level: LogLevel)
        ensures
            final(self).spec_log_level() == level,
            final(self).spec_callbacks_set() == old(self).spec_callbacks_set(),
            final(self).spec_sources() == old(self).spec_sources(),
    {
        self.log_level = level;
    }

    pub fn log_level(&self) -> (r: LogLevel)
        ensures
            r == self.spec_log_level(),
    {
        self.log_level
    }

    /// Records that the frame callbacks are registered.
    pub fn set_callbacks(&mut self)
        ensures
            final(self).spec_callbacks_set(),
            final(self).spec_log_level() == old(self).spec_log_level(),
            final(self).spec_sources() == old(self).spec_sources(),
    {
        self.callbacks_set = true;
    }

    pub fn are_callbacks_set(&self) -> (r: bool)
        ensures
            r == self.spec_callbacks_set(),
    {
        self.callbacks_set
    }

    pub fn is_monitored(&self, source_id: i32) -> (r: bool)
        ensures
            r == self.spec_sources().contains(source_id),
    {
        let mut i: usize = 0;
        while i < self.sources.len()
            invariant
                i <= self.sources@.len(),
                forall|j: int| 0 <= j < i ==> self.sources@[j] != source_id,
            decreases self.sources@.len() - i,
        {
            if self.sources[i] == source_id {
                return true;
            }
            i = i + 1;
        }
        false
    }

    /// Registers a monitor for `source_id`. Returns `true` when the source
    /// was not monitored yet; a source already monitored keeps one entry
    /// (its monitor is restarted by the caller).
    pub fn init_source(&mut self, source_id: i32) -> (r: bool)
        requires
            old(self).wf(),
        ensures
            final(self).wf(),
            r == !old(self).spec_sources().contains(source_id),
            final(self).spec_sources() == if r { old(self).spec_sources().push(source_id) } else { old(self).spec_sources() },
            final(self).spec_log_level() == old(self).spec_log_level(),
            final(self).spec_callbacks_set() == old(self).spec_callbacks_set(),
    {
        if self.is_monitored(source_id) {
            return false;
        }
        self.sources.push(source_id);
        true
    }

    /// Registers monitors for each of `source_ids`, in order.
    pub fn init_sources(&mut self, source_ids: &Vec<i32>)
        requires
            old(self).wf(),
        ensures
            final(self).wf(),
            forall|i: int| 0 <= i < source_ids@.len() ==> final(self).spec_sources().contains(#[trigger] source_ids@[i]),
            forall|s: i32| old(self).spec_sources().contains(s) ==> final(self).spec_sources().contains(s),
            forall|s: i32| #[trigger] final(self).spec_sources().contains(s) ==>
                old(self).spec_sources().contains(s) || source_ids@.contains(s),
            final(self).spec_log_level() == old(self).spec_log_level(),
            final(self).spec_callbacks_set() == old(self).spec_callbacks_set(),
    {
        let mut i: usize = 0;
        let ghost start = self.spec_sources();
        while i < source_ids.len()
            invariant
                i <= source_ids@.len(),
                self.wf(),
                forall|j: int| 0 <= j < i ==> self.spec_sources().contains(#[trigger] source_ids@[j]),
                forall|s: i32| start.contains(s) ==> self.spec_sources().contains(s),
                forall|s: i32| #[trigger] self.spec_sources().contains(s) ==>
                    start.contains(s) || source_ids@.contains(s),
                self.spec_log_level() == old(self).spec_log_level(),
                self.spec_callbacks_set() == old(self).spec_callbacks_set(),
            decreases source_ids@.len() - i,
        {
            let id = source_ids[i];
            let ghost before = self.spec_sources();
            self.init_source(id);
            proof {
                assert(self.spec_sources().contains(id)) by {
                    if before.contains(id) {
                    } else {
                        assert(self.spec_sources()[before.len() as int] == id);
                    }
                }
                assert forall|s: i32| before.contains(s) implies self.spec_sources().contains(s) by {
                    let k = choose|k: int| 0 <= k < before.len() && before[k] == s;
                    assert(self.spec_sources()[k] == s);
                }
                assert forall|s: i32| #[trigger] self.spec_sources().contains(s) implies
                    start.contains(s) || source_ids@.contains(s) by {
                    if !before.contains(s) {
                        let k = choose|k: int| 0 <= k < self.spec_sources().len() && self.spec_sources()[k] == s;
                        if k < before.len() {
                            assert(before[k] == s);
                        } else {
                            assert(source_ids@[i as int] == s);
                        }
                    }
                }
            }
            i = i + 1;
        }
    }
}

/// Sets the stream side's log level.
pub fn set_log_level(manager: &mut StreamManager, level: LogLevel)
    ensures
        final(manager).spec_log_level() == level,
        final(manager).spec_callbacks_set() == old(manager).spec_callbacks_set(),
        final(manager).spec_sources() == old(manager).spec_sources(),
{
    manager.set_log_level(level);
}

/// Whether the frame callbacks were registered.
pub fn are_callbacks_set(manager: &StreamManager) -> (r: bool)
    ensures
        r == manager.spec_callbacks_set(),
{
    manager.are_callbacks_set()
}

/// Starts monitoring one source.
pub fn start_stream(manager: &mut StreamManager, source_id: i32) -> (r: bool)
    requires
        old(manager).wf(),
    ensures
        final(manager).wf(),
        r == !old(manager).spec_sources().contains(source_id),
        final(manager).spec_sources().contains(source_id),
        forall|s: i32| #[trigger] final(manager).spec_sources().contains(s) <==>
            old(manager).spec_sources().contains(s) || s == source_id,
{
    let r = manager.init_source(source_id);
    proof {
        let o = old(manager).spec_sources();
        let f = final(manager).spec_sources();
        if r {
            assert(f[o.len() as int] == source_id);
            assert forall|s: i32| #[trigger] f.contains(s) <==> o.contains(s) || s == source_id by {
                if o.contains(s) {
                    let k = choose|k: int| 0 <= k < o.len() && o[k] == s;
                    assert(f[k] == s);
                }
                if f.contains(s) && s != source_id {
                    let k = choose|k: int| 0 <= k < f.len() && f[k] == s;
                    assert(o[k] == s);
                }
            }
        }
    }
    r
}

/// Sets the log level, then starts monitoring each of `source_ids`.
pub fn start_streams(manager: &mut StreamManager, source_ids: &Vec<i32>, log_level: LogLevel)
    requires
        old(manager).wf(),
    ensures
        final(manager).wf(),
        final(manager).spec_log_level() == log_level,
        forall|i: int| 0 <= i < source_ids@.len() ==> final(manager).spec_sources().contains(#[trigger] source_ids@[i]),
        forall|s: i32| #[trigger] final(manager).spec_sources().contains(s) ==>
            old(manager).spec_sources().contains(s) || source_ids@.contains(s),
{
    manager.set_log_level(log_level);
    manager.init_sources(source_ids);
}

} // verus!
