//! Navigation records: per epoch, broadcast frames grouped by frame class.
//!
//! A frame is either an ephemeris (message type, vehicle, clock state and a
//! free-form auxiliary field map), a system-time offset message, an
//! ionospheric model (Klobuchar, Nequick-G or BDGIM) or an earth-orientation
//! message. Clock offsets are nanoseconds; drift and drift rate are
//! fixed-point integers in the producer's scale.
use vstd::prelude::*;

use crate::constellation::{sv_listed, constellation_listed, Constellation, Sv};
use crate::deepclone::DeepClone;
use crate::epoch::Epoch;
use crate::series::{sorted_by_date, TimeSeries};
use crate::strutil::str_listed;

verus! {

/// The class a broadcast frame belongs to.
#[derive(Clone, Copy, Debug, PartialEq, Eq, Structural)]
pub enum FrameClass {
    /// Orbit and clock ephemerides.
    Ephemeris,
    /// Offsets between system time scales.
    SystemTimeOffset,
    /// Ionospheric delay models.
    IonosphericModel,
    /// Earth orientation parameters.
    EarthOrientation,
}

/// The navigation message type an ephemeris was broadcast in.
#[derive(Clone, Copy, Debug, PartialEq, Eq, Structural)]
pub enum MsgType {
    /// Legacy navigation messages.
    LNAV,
    /// Glonass frequency-division messages.
    FDMA,
    /// Beidou D1/D2 messages.
    D1D2,
    /// Modern civil navigation messages.
    CNVX,
    /// Augmentation-system messages.
    SBAS,
}


impl View for FrameClass {
    type V = FrameClass;

    open spec fn view(&self) -> FrameClass {
        *self
    }
}

impl DeepView for FrameClass {
    type V = FrameClass;

    open spec fn deep_view(&self) -> FrameClass {
        *self
    }
}

impl DeepClone for FrameClass {
    fn deep_clone(&self) -> (r: Self) {
        *self
    }
}

impl View for MsgType {
    type V = MsgType;

    open spec fn view(&self) -> MsgType {
        *self
    }
}

impl DeepView for MsgType {
    type V = MsgType;

    open spec fn deep_view(&self) -> MsgType {
        *self
    }
}

impl DeepClone for MsgType {
    fn deep_clone(&self) -> (r: Self) {
        *self
    }
}

impl View for IonMessage {
    type V = IonMessage;

    open spec fn view(&self) -> IonMessage {
        *self
    }
}

impl DeepView for IonMessage {
    type V = IonMessage;

    open spec fn deep_view(&self) -> IonMessage {
        *self
    }
}

impl DeepClone for IonMessage {
    fn deep_clone(&self) -> (r: Self) {
        *self
    }
}

impl View for EopMessage {
    type V = EopMessage;

    open spec fn view(&self) -> EopMessage {
        *self
    }
}

impl DeepView for EopMessage {
    type V = EopMessage;

    open spec fn deep_view(&self) -> EopMessage {
        *self
    }
}

impl DeepClone for EopMessage {
    fn deep_clone(&self) -> (r: Self) {
        *self
    }
}

impl View for KbModel {
    type V = KbModel;

    open spec fn view(&self) -> KbModel {
        *self
    }
}

impl DeepView for KbModel {
    type V = KbModel;

    open spec fn deep_view(&self) -> KbModel {
        *self
    }
}

impl DeepClone for KbModel {
    fn deep_clone(&self) -> (r: Self) {
        *self
    }
}

impl View for NgModel {
    type V = NgModel;

    open spec fn view(&self) -> NgModel {
        *self
    }
}

impl DeepView for NgModel {
    type V = NgModel;

    open spec fn deep_view(&self) -> NgModel {
        *self
    }
}

impl DeepClone for NgModel {
    fn deep_clone(&self) -> (r: Self) {
        *self
    }
}

impl View for BdModel {
    type V = BdModel;

    open spec fn view(&self) -> BdModel {
        *self
    }
}

impl DeepView for BdModel {
    type V = BdModel;

    open spec fn deep_view(&self) -> BdModel {
        *self
    }
}

impl DeepClone for BdModel {
    fn deep_clone(&self) -> (r: Self) {
        *self
    }
}

/// The four-letter code of a message type, as filters name it.
pub open spec fn spec_msg_code(m: MsgType) -> Seq<char> {
    match m {
        MsgType::LNAV => "LNAV"@,
        MsgType::FDMA => "FDMA"@,
        MsgType::D1D2 => "D1D2"@,
        MsgType::CNVX => "CNVX"@,
        MsgType::SBAS => "SBAS"@,
    }
}

impl MsgType {
    /// Returns the four-letter code of this message type.
    pub fn to_code(&self) -> (r: &'static str)
        ensures
            r@ == spec_msg_code(*self),
    {
        match self {
            MsgType::LNAV => "LNAV",
            MsgType::FDMA => "FDMA",
            MsgType::D1D2 => "D1D2",
            MsgType::CNVX => "CNVX",
            MsgType::SBAS => "SBAS",
        }
    }
}

/// A Klobuchar ionospheric model: the two four-coefficient polynomials.
#[derive(Clone, Copy, Debug, PartialEq)]
pub struct KbModel {
    /// The alpha coefficients.
    pub alpha: (i64, i64, i64, i64),
    /// The beta coefficients.
    pub beta: (i64, i64, i64, i64),
}

/// A Nequick-G ionospheric model: the three coefficients and region flags.
#[derive(Clone, Copy, Debug, PartialEq)]
pub struct NgModel {
    /// The model coefficients.
    pub a: (i64, i64, i64),
    /// The region bit flags.
    pub region: u8,
}

/// A BDGIM ionospheric model: the three leading alpha coefficients.
#[derive(Clone, Copy, Debug, PartialEq)]
pub struct BdModel {
    /// The model coefficients.
    pub alpha: (i64, i64, i64),
}

/// An ionospheric model of any of the three kinds.
#[derive(Clone, Copy, Debug, PartialEq)]
pub enum IonMessage {
    /// A Klobuchar model.
    Klobuchar(KbModel),
    /// A Nequick-G model.
    NequickG(NgModel),
    /// A BDGIM model.
    Bdgim(BdModel),
}

impl IonMessage {
    /// Returns the Klobuchar model, when this is one.
    pub fn as_klobuchar(&self) -> (r: Option<KbModel>)
        ensures
            match r {
                Some(m) => *self == IonMessage::Klobuchar(m),
                None => !(*self is Klobuchar),
            },
    {
        match self {
            IonMessage::Klobuchar(m) => Some(*m),
            _ => None,
        }
    }

    /// Returns the Nequick-G model, when this is one.
    pub fn as_nequick_g(&self) -> (r: Option<NgModel>)
        ensures
            match r {
                Some(m) => *self == IonMessage::NequickG(m),
                None => !(*self is NequickG),
            },
    {
        match self {
            IonMessage::NequickG(m) => Some(*m),
            _ => None,
        }
    }

    /// Returns the BDGIM model, when this is one.
    pub fn as_bdgim(&self) -> (r: Option<BdModel>)
        ensures
            match r {
                Some(m) => *self == IonMessage::Bdgim(m),
                None => !(*self is Bdgim),
            },
    {
        match self {
            IonMessage::Bdgim(m) => Some(*m),
            _ => None,
        }
    }
}

/// An earth-orientation message: polar offsets and UT1-UTC difference, as
/// fixed-point integers.
#[derive(Clone, Copy, Debug, PartialEq)]
pub struct EopMessage {
    /// Polar x offset.
    pub x: i64,
    /// Polar y offset.
    pub y: i64,
    /// UT1-UTC difference.
    pub delta_ut1: i64,
}

/// A system-time offset message.
#[derive(Debug)]
pub struct StoMessage {
    /// The pair of time systems the message relates, e.g. `GAUT`.
    pub system: String,
    /// Offset, drift and drift-rate coefficients, fixed-point integers.
    pub a: (i64, i64, i64),
}

/// The model of a system-time offset message.
pub struct StoMessageV {
    /// The pair of time systems the message relates.
    pub system: Seq<char>,
    /// Offset, drift and drift-rate coefficients.
    pub a: (i64, i64, i64),
}

impl View for StoMessage {
    type V = StoMessageV;

    open spec fn view(&self) -> StoMessageV {
        StoMessageV { system: self.system@, a: self.a }
    }
}

impl DeepView for StoMessage {
    type V = StoMessageV;

    open spec fn deep_view(&self) -> StoMessageV {
        StoMessageV { system: self.system@, a: self.a }
    }
}

impl DeepClone for StoMessage {
    fn deep_clone(&self) -> (r: Self) {
        StoMessage { system: self.system.clone(), a: self.a }
    }
}

/// An ephemeris frame: message type, vehicle, clock state and the free-form
/// auxiliary field map.
#[derive(Debug)]
pub struct EphFrame {
    /// The navigation message type.
    pub msg_type: MsgType,
    /// The broadcasting vehicle.
    pub sv: Sv,
    /// Vehicle clock offset, nanoseconds.
    pub clock_offset: i64,
    /// Vehicle clock drift, fixed-point.
    pub clock_drift: i64,
    /// Vehicle clock drift rate, fixed-point.
    pub clock_drift_rate: i64,
    /// The remaining broadcast fields, by name.
    pub data: Vec<(String, i64)>,
}

/// The model of an ephemeris frame.
pub struct EphFrameV {
    /// The navigation message type.
    pub msg_type: MsgType,
    /// The broadcasting vehicle.
    pub sv: Sv,
    /// Vehicle clock offset, nanoseconds.
    pub clock_offset: i64,
    /// Vehicle clock drift, fixed-point.
    pub clock_drift: i64,
    /// Vehicle clock drift rate, fixed-point.
    pub clock_drift_rate: i64,
    /// The remaining broadcast fields, by name.
    pub data: Seq<(Seq<char>, i64)>,
}

impl View for EphFrame {
    type V = EphFrameV;

    open spec fn view(&self) -> EphFrameV {
        EphFrameV {
            msg_type: self.msg_type,
            sv: self.sv,
            clock_offset: self.clock_offset,
            clock_drift: self.clock_drift,
            clock_drift_rate: self.clock_drift_rate,
            data: self.data.deep_view(),
        }
    }
}

impl DeepView for EphFrame {
    type V = EphFrameV;

    open spec fn deep_view(&self) -> EphFrameV {
        self.view()
    }
}

impl DeepClone for EphFrame {
    fn deep_clone(&self) -> (r: Self) {
        EphFrame {
            msg_type: self.msg_type,
            sv: self.sv,
            clock_offset: self.clock_offset,
            clock_drift: self.clock_drift,
            clock_drift_rate: self.clock_drift_rate,
            data: self.data.deep_clone(),
        }
    }
}

/// One broadcast frame.
#[derive(Debug)]
pub enum Frame {
    /// An ephemeris frame.
    Eph(EphFrame),
    /// A system-time offset message.
    Sto(StoMessage),
    /// An ionospheric model.
    Ion(IonMessage),
    /// An earth-orientation message.
    Eop(EopMessage),
}

/// The model of a broadcast frame.
pub enum FrameV {
    /// An ephemeris frame.
    Eph(EphFrameV),
    /// A system-time offset message.
    Sto(StoMessageV),
    /// An ionospheric model.
    Ion(IonMessage),
    /// An earth-orientation message.
    Eop(EopMessage),
}

impl View for Frame {
    type V = FrameV;

    open spec fn view(&self) -> FrameV {
        match self {
            Frame::Eph(e) => FrameV::Eph(e.deep_view()),
            Frame::Sto(s) => FrameV::Sto(s.deep_view()),
            Frame::Ion(m) => FrameV::Ion(*m),
            Frame::Eop(m) => FrameV::Eop(*m),
        }
    }
}

impl DeepView for Frame {
    type V = FrameV;

    open spec fn deep_view(&self) -> FrameV {
        self.view()
    }
}

impl DeepClone for Frame {
    fn deep_clone(&self) -> (r: Self) {
        match self {
            Frame::Eph(e) => Frame::Eph(e.deep_clone()),
            Frame::Sto(s) => Frame::Sto(s.deep_clone()),
            Frame::Ion(m) => Frame::Ion(*m),
            Frame::Eop(m) => Frame::Eop(*m),
        }
    }
}

impl Frame {
    /// Returns the ephemeris payload, when this frame is one.
    pub fn as_eph(&self) -> (r: Option<&EphFrame>)
        ensures
            match r {
                Some(e) => self.deep_view() == FrameV::Eph(e.deep_view()),
                None => !(self.deep_view() is Eph),
            },
    {
        match self {
            Frame::Eph(e) => Some(e),
            _ => None,
        }
    }

    /// Returns the system-time offset payload, when this frame is one.
    pub fn as_sto(&self) -> (r: Option<&StoMessage>)
        ensures
            match r {
                Some(s) => self.deep_view() == FrameV::Sto(s.deep_view()),
                None => !(self.deep_view() is Sto),
            },
    {
        match self {
            Frame::Sto(s) => Some(s),
            _ => None,
        }
    }

    /// Returns the ionospheric model, when this frame is one.
    pub fn as_ion(&self) -> (r: Option<&IonMessage>)
        ensures
            match r {
                Some(m) => self.deep_view() == FrameV::Ion(*m),
                None => !(self.deep_view() is Ion),
            },
    {
        match self {
            Frame::Ion(m) => Some(m),
            _ => None,
        }
    }

    /// Returns the earth-orientation payload, when this frame is one.
    pub fn as_eop(&self) -> (r: Option<&EopMessage>)
        ensures
            match r {
                Some(m) => self.deep_view() == FrameV::Eop(*m),
                None => !(self.deep_view() is Eop),
            },
    {
        match self {
            Frame::Eop(m) => Some(m),
            _ => None,
        }
    }
}

/// The model of one epoch of a navigation record.
pub type NavEntryV = Seq<(FrameClass, Seq<FrameV>)>;

/// One epoch of a navigation record: frames grouped by class.
#[derive(Debug)]
pub struct NavEntry {
    /// Frames grouped by frame class; class keys are unique in well-formed
    /// data.
    pub classes: Vec<(FrameClass, Vec<Frame>)>,
}

impl View for NavEntry {
    type V = NavEntryV;

    open spec fn view(&self) -> NavEntryV {
        self.classes.deep_view()
    }
}

impl DeepView for NavEntry {
    type V = NavEntryV;

    open spec fn deep_view(&self) -> NavEntryV {
        self.classes.deep_view()
    }
}

impl DeepClone for NavEntry {
    fn deep_clone(&self) -> (r: Self) {
        NavEntry { classes: self.classes.deep_clone() }
    }
}

impl NavEntry {
    /// Builds an epoch entry from frames grouped by class.
    pub fn new(classes: Vec<(FrameClass, Vec<Frame>)>) -> (r: Self)
        ensures
            r.deep_view() == classes.deep_view(),
    {
        NavEntry { classes }
    }
}

/// Whether an ephemeris frame survives the vehicle allow list.
pub open spec fn eph_sv_keep(f: FrameV, allow: Seq<Sv>) -> bool {
    match f {
        FrameV::Eph(e) => sv_listed(allow, e.sv),
        _ => false,
    }
}

/// Whether an ephemeris frame survives the constellation allow list.
pub open spec fn eph_constellation_keep(f: FrameV, allow: Seq<Constellation>) -> bool {
    match f {
        FrameV::Eph(e) => constellation_listed(allow, e.sv.constellation),
        _ => false,
    }
}

/// Whether a frame survives the observable-code allow list: ephemerides are
/// matched by message type, system-time messages by time-system name.
pub open spec fn frame_code_keep(f: FrameV, codes: Seq<Seq<char>>) -> bool {
    match f {
        FrameV::Eph(e) => str_listed(codes, spec_msg_code(e.msg_type)),
        FrameV::Sto(s) => str_listed(codes, s.system),
        _ => false,
    }
}

/// Whether a frame is an ephemeris of the legacy message type.
pub open spec fn frame_is_legacy(f: FrameV) -> bool {
    match f {
        FrameV::Eph(e) => e.msg_type == MsgType::LNAV,
        _ => false,
    }
}

/// An epoch entry with its ephemeris frames filtered by `pred`; frames of
/// the other classes stay untouched.
pub open spec fn eph_filtered_entry(e: NavEntryV, pred: spec_fn(FrameV) -> bool) -> NavEntryV {
    e.map_values(
        |cp: (FrameClass, Seq<FrameV>)|
            if cp.0 == FrameClass::Ephemeris {
                (cp.0, cp.1.filter(pred))
            } else {
                cp
            },
    )
}

/// An epoch entry with ephemeris and system-time frames filtered by the
/// observable-code allow list; the other classes stay untouched.
pub open spec fn code_filtered_entry(e: NavEntryV, codes: Seq<Seq<char>>) -> NavEntryV {
    e.map_values(
        |cp: (FrameClass, Seq<FrameV>)|
            if cp.0 == FrameClass::Ephemeris || cp.0 == FrameClass::SystemTimeOffset {
                (cp.0, cp.1.filter(|f: FrameV| frame_code_keep(f, codes)))
            } else {
                cp
            },
    )
}

/// A frame predicate: vehicles in an allow list, constellations in an allow
/// list, codes in an allow list, legacy ephemerides only, or modern
/// (non-legacy) ephemerides only.
enum FramePred<'a> {
    BySv(&'a Vec<Sv>),
    ByConstellation(&'a Vec<Constellation>),
    ByCode(&'a Vec<String>),
    LegacyOnly,
    ModernOnly,
}

impl<'a> FramePred<'a> {
    /// The predicate this selector stands for.
    spec fn spec_keep(self, f: FrameV) -> bool {
        match self {
            FramePred::BySv(allow) => eph_sv_keep(f, allow.deep_view()),
            FramePred::ByConstellation(allow) => eph_constellation_keep(f, allow.deep_view()),
            FramePred::ByCode(codes) => frame_code_keep(f, codes.deep_view()),
            FramePred::LegacyOnly => frame_is_legacy(f),
            FramePred::ModernOnly => match f {
                FrameV::Eph(e) => e.msg_type != MsgType::LNAV,
                _ => false,
            },
        }
    }

    /// Decides the predicate on one frame.
    fn keep(&self, f: &Frame) -> (r: bool)
        ensures
            r == self.spec_keep(f.deep_view()),
    {
        match self {
            FramePred::BySv(allow) => {
                match f {
                    Frame::Eph(e) => crate::constellation::sv_list_contains(allow, e.sv),
                    _ => false,
                }
            },
            FramePred::ByConstellation(allow) => {
                match f {
                    Frame::Eph(e) => crate::constellation::constellation_list_contains(
                        allow,
                        e.sv.constellation,
                    ),
                    _ => false,
                }
            },
            FramePred::ByCode(codes) => {
                match f {
                    Frame::Eph(e) => crate::strutil::str_list_contains(
                        codes,
                        e.msg_type.to_code(),
                    ),
                    Frame::Sto(s) => crate::strutil::str_list_contains(codes, s.system.as_str()),
                    _ => false,
                }
            },
            FramePred::LegacyOnly => {
                match f {
                    Frame::Eph(e) => e.msg_type == MsgType::LNAV,
                    _ => false,
                }
            },
            FramePred::ModernOnly => {
                match f {
                    Frame::Eph(e) => e.msg_type != MsgType::LNAV,
                    _ => false,
                }
            },
        }
    }
}

/// Filters one frame list by the selector's predicate.
fn filter_frames(frames: &Vec<Frame>, sel: &FramePred<'_>) -> (r: Vec<Frame>)
    ensures
        r.deep_view() == frames.deep_view().filter(|f: FrameV| sel.spec_keep(f)),
{
    let ghost pred = |f: FrameV| sel.spec_keep(f);
    let n = frames.len();
    let mut out: Vec<Frame> = Vec::new();
    let mut i: usize = 0;
    proof {
        reveal(Seq::filter);
        assert(out.deep_view() =~= frames.deep_view().take(0int).filter(pred));
    }
    while i < n
        invariant
            n == frames@.len(),
            i <= n,
            out.deep_view() == frames.deep_view().take(i as int).filter(pred),
            pred == (|f: FrameV| sel.spec_keep(f)),
        decreases n - i,
    {
        let f = &frames[i];
        let ghost elem = frames.deep_view()[i as int];
        proof {
            reveal(Seq::filter);
            assert(frames.deep_view().take(i + 1int).drop_last() =~= frames.deep_view().take(
                i as int,
            ));
            assert(frames.deep_view().take(i + 1int).last() == elem);
            assert(elem == frames@[i as int].deep_view());
        }
        if sel.keep(f) {
            let c = f.deep_clone();
            let ghost pre_dv = out.deep_view();
            out.push(c);
            proof {
                assert(pred(elem));
                assert(out.deep_view() =~= pre_dv.push(elem));
                assert(out.deep_view() =~= frames.deep_view().take(i + 1int).filter(pred));
            }
        } else {
            proof {
                assert(!pred(elem));
                assert(out.deep_view() == frames.deep_view().take(i + 1int).filter(pred));
            }
        }
        i += 1;
    }
    proof {
        assert(frames.deep_view().take(n as int) =~= frames.deep_view());
    }
    out
}

/// Filters one epoch entry: the selector's predicate runs over the frames of
/// the classes `with_sto` selects (ephemerides always; system-time classes
/// too when set); the other classes stay untouched.
fn filter_entry_frames(e: &NavEntry, sel: &FramePred<'_>, with_sto: bool) -> (r: NavEntry)
    ensures
        !with_sto ==> r.deep_view() == eph_filtered_entry(
            e.deep_view(),
            |f: FrameV| sel.spec_keep(f),
        ),
        with_sto ==> r.deep_view() == e.deep_view().map_values(
            |cp: (FrameClass, Seq<FrameV>)|
                if cp.0 == FrameClass::Ephemeris || cp.0 == FrameClass::SystemTimeOffset {
                    (cp.0, cp.1.filter(|f: FrameV| sel.spec_keep(f)))
                } else {
                    cp
                },
        ),
{
    let ghost pred = |f: FrameV| sel.spec_keep(f);
    let ghost fm = if with_sto {
        |cp: (FrameClass, Seq<FrameV>)|
            if cp.0 == FrameClass::Ephemeris || cp.0 == FrameClass::SystemTimeOffset {
                (cp.0, cp.1.filter(|f: FrameV| sel.spec_keep(f)))
            } else {
                cp
            }
    } else {
        |cp: (FrameClass, Seq<FrameV>)|
            if cp.0 == FrameClass::Ephemeris {
                (cp.0, cp.1.filter(|f: FrameV| sel.spec_keep(f)))
            } else {
                cp
            }
    };
    let n = e.classes.len();
    let mut classes: Vec<(FrameClass, Vec<Frame>)> = Vec::new();
    let mut i: usize = 0;
    proof {
        assert(classes.deep_view() =~= e.classes.deep_view().take(0int).map_values(fm));
    }
    while i < n
        invariant
            n == e.classes@.len(),
            i <= n,
            classes.deep_view() == e.classes.deep_view().take(i as int).map_values(fm),
            pred == (|f: FrameV| sel.spec_keep(f)),
            fm == (if with_sto {
                |cp: (FrameClass, Seq<FrameV>)|
                    if cp.0 == FrameClass::Ephemeris || cp.0 == FrameClass::SystemTimeOffset {
                        (cp.0, cp.1.filter(|f: FrameV| sel.spec_keep(f)))
                    } else {
                        cp
                    }
            } else {
                |cp: (FrameClass, Seq<FrameV>)|
                    if cp.0 == FrameClass::Ephemeris {
                        (cp.0, cp.1.filter(|f: FrameV| sel.spec_keep(f)))
                    } else {
                        cp
                    }
            }),
        decreases n - i,
    {
        let p = &e.classes[i];
        let is_selected = match p.0 {
            FrameClass::Ephemeris => true,
            FrameClass::SystemTimeOffset => with_sto,
            _ => false,
        };
        let new_frames: Vec<Frame> = if is_selected {
            filter_frames(&p.1, sel)
        } else {
            p.1.deep_clone()
        };
        let ghost pre_dv = classes.deep_view();
        let ghost edv = e.classes.deep_view();
        classes.push((p.0, new_frames));
        proof {
            assert(edv[i as int] == (e.classes@[i as int].0, e.classes@[i as int].1.deep_view()));
            assert(classes.deep_view() =~= pre_dv.push(fm(edv[i as int])));
            assert(classes.deep_view() =~= edv.take(i + 1int).map_values(fm));
        }
        i += 1;
    }
    proof {
        assert(e.classes.deep_view().take(n as int) =~= e.classes.deep_view());
    }
    NavEntry { classes }
}

/// Filters one epoch entry's ephemerides by a vehicle allow list.
pub fn sv_filter_nav_entry(e: &NavEntry, allow: &Vec<Sv>) -> (r: NavEntry)
    ensures
        r.deep_view() == eph_filtered_entry(
            e.deep_view(),
            |f: FrameV| eph_sv_keep(f, allow.deep_view()),
        ),
{
    let sel = FramePred::BySv(allow);
    let r = filter_entry_frames(e, &sel, false);
    proof {
        assert(eph_filtered_entry(e.deep_view(), |f: FrameV| sel.spec_keep(f))
            =~= eph_filtered_entry(e.deep_view(), |f: FrameV| eph_sv_keep(f, allow.deep_view())))
            by {
            let fa = |f: FrameV| sel.spec_keep(f);
            let fb = |f: FrameV| eph_sv_keep(f, allow.deep_view());
            assert(fa == fb) by {
                assert forall|f: FrameV| #[trigger] fa(f) == fb(f) by {}
            }
        }
    }
    r
}

/// Filters one epoch entry's ephemerides by a constellation allow list.
pub fn constellation_filter_nav_entry(e: &NavEntry, allow: &Vec<Constellation>) -> (r: NavEntry)
    ensures
        r.deep_view() == eph_filtered_entry(
            e.deep_view(),
            |f: FrameV| eph_constellation_keep(f, allow.deep_view()),
        ),
{
    let sel = FramePred::ByConstellation(allow);
    let r = filter_entry_frames(e, &sel, false);
    proof {
        let fa = |f: FrameV| sel.spec_keep(f);
        let fb = |f: FrameV| eph_constellation_keep(f, allow.deep_view());
        assert(fa == fb) by {
            assert forall|f: FrameV| #[trigger] fa(f) == fb(f) by {}
        }
    }
    r
}

/// Filters one epoch entry's ephemeris and system-time frames by the
/// observable-code allow list.
pub fn code_filter_nav_entry(e: &NavEntry, codes: &Vec<String>) -> (r: NavEntry)
    ensures
        r.deep_view() == code_filtered_entry(e.deep_view(), codes.deep_view()),
{
    let sel = FramePred::ByCode(codes);
    let r = filter_entry_frames(e, &sel, true);
    proof {
        let fa = |f: FrameV| sel.spec_keep(f);
        let fb = |f: FrameV| frame_code_keep(f, codes.deep_view());
        assert(fa == fb) by {
            assert forall|f: FrameV| #[trigger] fa(f) == fb(f) by {}
        }
        assert(r.deep_view() =~= code_filtered_entry(e.deep_view(), codes.deep_view()));
    }
    r
}

/// Keeps only legacy ephemerides (when `legacy` is set) or only modern,
/// non-legacy ephemerides (otherwise) in one epoch entry.
pub fn message_era_filter_nav_entry(e: &NavEntry, legacy: bool) -> (r: NavEntry)
    ensures
        legacy ==> r.deep_view() == eph_filtered_entry(
            e.deep_view(),
            |f: FrameV| frame_is_legacy(f),
        ),
        !legacy ==> r.deep_view() == eph_filtered_entry(
            e.deep_view(),
            |f: FrameV| !frame_is_legacy(f) && f is Eph,
        ),
{
    if legacy {
        let sel = FramePred::LegacyOnly;
        let r = filter_entry_frames(e, &sel, false);
        proof {
            let fa = |f: FrameV| sel.spec_keep(f);
            let fb = |f: FrameV| frame_is_legacy(f);
            assert(fa == fb) by {
                assert forall|f: FrameV| #[trigger] fa(f) == fb(f) by {}
            }
        }
        r
    } else {
        let sel = FramePred::ModernOnly;
        let r = filter_entry_frames(e, &sel, false);
        proof {
            let fa = |f: FrameV| sel.spec_keep(f);
            let fb = |f: FrameV| !frame_is_legacy(f) && f is Eph;
            assert(fa == fb) by {
                assert forall|f: FrameV| #[trigger] fa(f) == fb(f) by {}
            }
        }
        r
    }
}


/// Which per-entry filter to run over a navigation series.
pub enum NavFilter<'a> {
    /// Keep ephemerides of the vehicles the list names.
    Vehicles(&'a Vec<Sv>),
    /// Keep ephemerides of a listed constellation.
    Constellations(&'a Vec<Constellation>),
    /// Keep frames whose message type or time-system name the list names.
    Codes(&'a Vec<String>),
    /// Keep only legacy ephemerides.
    LegacyOnly,
    /// Keep only modern, non-legacy ephemerides.
    ModernOnly,
}

impl<'a> NavFilter<'a> {
    /// What the filter does to one epoch entry.
    pub open spec fn apply_spec(self, e: NavEntryV) -> NavEntryV {
        match self {
            NavFilter::Vehicles(v) => eph_filtered_entry(
                e,
                |f: FrameV| eph_sv_keep(f, v.deep_view()),
            ),
            NavFilter::Constellations(c) => eph_filtered_entry(
                e,
                |f: FrameV| eph_constellation_keep(f, c.deep_view()),
            ),
            NavFilter::Codes(c) => code_filtered_entry(e, c.deep_view()),
            NavFilter::LegacyOnly => eph_filtered_entry(e, |f: FrameV| frame_is_legacy(f)),
            NavFilter::ModernOnly => eph_filtered_entry(
                e,
                |f: FrameV| !frame_is_legacy(f) && f is Eph,
            ),
        }
    }

    /// Runs the filter on one epoch entry.
    pub fn apply(&self, e: &NavEntry) -> (r: NavEntry)
        ensures
            r.deep_view() == self.apply_spec(e.deep_view()),
    {
        match self {
            NavFilter::Vehicles(v) => sv_filter_nav_entry(e, v),
            NavFilter::Constellations(c) => constellation_filter_nav_entry(e, c),
            NavFilter::Codes(c) => code_filter_nav_entry(e, c),
            NavFilter::LegacyOnly => message_era_filter_nav_entry(e, true),
            NavFilter::ModernOnly => message_era_filter_nav_entry(e, false),
        }
    }
}

/// The whole navigation series with the filter applied to every epoch
/// entry; the epochs themselves stay untouched.
pub open spec fn nav_series_filtered(s: Seq<(Epoch, NavEntryV)>, f: NavFilter<'_>) -> Seq<
    (Epoch, NavEntryV),
> {
    s.map_values(|p: (Epoch, NavEntryV)| (p.0, f.apply_spec(p.1)))
}

/// Applies a per-entry filter across a whole navigation series, as a
/// structurally independent copy; epochs and their order stay untouched.
pub fn filter_nav_series(rec: &TimeSeries<NavEntry>, f: &NavFilter<'_>) -> (r: TimeSeries<
    NavEntry,
>)
    requires
        rec.wf(),
    ensures
        r.wf(),
        r@ == nav_series_filtered(rec@, *f),
{
    let ghost fm = |p: (Epoch, NavEntryV)| (p.0, f.apply_spec(p.1));
    let n = rec.len();
    let mut out: Vec<(Epoch, NavEntry)> = Vec::new();
    let mut i: usize = 0;
    proof {
        assert(out.deep_view() =~= rec@.take(0int).map_values(fm));
    }
    while i < n
        invariant
            rec.wf(),
            n == rec@.len(),
            i <= n,
            out.deep_view() == rec@.take(i as int).map_values(fm),
            fm == (|p: (Epoch, NavEntryV)| (p.0, f.apply_spec(p.1))),
        decreases n - i,
    {
        let p = rec.get(i);
        let fe = f.apply(&p.1);
        let ghost pre = out.deep_view();
        out.push((p.0, fe));
        proof {
            assert(out.deep_view() =~= pre.push(fm(rec@[i as int])));
            assert(out.deep_view() =~= rec@.take(i + 1int).map_values(fm));
        }
        i += 1;
    }
    proof {
        assert(rec@.take(n as int) =~= rec@);
        let od = out.deep_view();
        assert(sorted_by_date(od)) by {
            assert forall|x: int, y: int|
                #![trigger od[x], od[y]]
                0 <= x < y < od.len() implies od[x].0.date < od[y].0.date by {
                assert(od[x].0 == rec@[x].0);
                assert(od[y].0 == rec@[y].0);
            }
        }
    }
    TimeSeries::from_parts(out)
}

} // verus!
