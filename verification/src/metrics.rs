use crackle_runtime::{CracklePattern, Kiln, TaskOutput, ThermalProfile};
use vstd::prelude::*;

verus! {

// ---- The kiln of crackle-runtime, behind trusted items ----

#[verifier::external_type_specification]
#[verifier::external_body]
pub struct ExKiln(Kiln);

#[verifier::external_type_specification]
#[verifier::external_body]
pub struct ExThermalProfile(ThermalProfile);

#[verifier::external_type_specification]
#[verifier::external_body]
pub struct ExCracklePattern(CracklePattern);

#[verifier::external_type_specification]
#[verifier::external_body]
#[verifier::reject_recursive_types(T)]
pub struct ExTaskOutput<T>(TaskOutput<T>);

/// How fast a kiln cools, which sets how sensitive its pattern detection is.
#[derive(Debug, Clone, Copy, PartialEq, Eq, Structural)]
pub enum CoolingRate {
    /// Many fine cracks: the lowest thresholds, the most patterns.
    Fast,
    /// Balanced detection.
    Normal,
    /// Fewer, more significant patterns.
    Slow,
}

/// The fewest entries a kiln must hold before its detectors run.
pub open spec fn min_tasks_for_detection(rate: CoolingRate) -> nat {
    match rate {
        CoolingRate::Fast => 2,
        CoolingRate::Normal => 3,
        CoolingRate::Slow => 5,
    }
}

/// Which pattern detectors a thermal profile enables.
#[derive(Debug, Clone, Copy, PartialEq, Eq, Structural)]
pub struct Detectors {
    pub clustering: bool,
    pub phase_transitions: bool,
    pub conservation: bool,
    pub correlations: bool,
}

/// Whether no detector is enabled.
pub open spec fn none_enabled(d: Detectors) -> bool {
    !d.clustering && !d.phase_transitions && !d.conservation && !d.correlations
}

/// The labels of the task entries that a kiln holds, in the order in which
/// they were recorded.
pub uninterp spec fn kiln_labels(kiln: Kiln) -> Seq<Seq<char>>;

/// Whether a kiln has been cooled (after which a collector refuses tasks).
pub uninterp spec fn kiln_cooled(kiln: Kiln) -> bool;

/// The thermal profile a kiln was made with.
pub uninterp spec fn kiln_profile(kiln: Kiln) -> ThermalProfile;

/// The cooling rate of a thermal profile.
pub uninterp spec fn profile_rate(profile: ThermalProfile) -> CoolingRate;

/// The detectors that a thermal profile enables.
pub uninterp spec fn profile_detectors(profile: ThermalProfile) -> Detectors;

/// The longest time a thermal profile allows for cooling, in nanoseconds.
pub uninterp spec fn profile_max_cooling_nanos(profile: ThermalProfile) -> nat;

/// `ThermalProfile::fast_cooling`: a profile whose cooling rate is `Fast`,
/// with every detector enabled and ten seconds of cooling.
#[verifier::external_body]
fn fast_cooling_profile() -> (p: ThermalProfile)
    ensures
        profile_rate(p) == CoolingRate::Fast,
        profile_detectors(p) == (Detectors {
            clustering: true,
            phase_transitions: true,
            conservation: true,
            correlations: true,
        }),
        profile_max_cooling_nanos(p) == 10_000_000_000,
{
    ThermalProfile::fast_cooling()
}

/// `Kiln::new`: a kiln with the given profile, holding no entries and not
/// cooled.
#[verifier::external_body]
fn new_kiln(profile: ThermalProfile) -> (k: Kiln)
    ensures
        kiln_labels(k) == Seq::<Seq<char>>::empty(),
        !kiln_cooled(k),
        kiln_profile(k) == profile,
{
    Kiln::new(profile)
}

/// `Kiln::is_cooled`: whether the kiln has been cooled.
#[verifier::external_body]
fn kiln_is_cooled(kiln: &Kiln) -> (r: bool)
    ensures
        r == kiln_cooled(*kiln),
{
    kiln.is_cooled()
}

/// `Kiln::task_count`: the number of entries the kiln holds.
#[verifier::external_body]
fn kiln_task_count(kiln: &Kiln) -> (r: usize)
    ensures
        r == kiln_labels(*kiln).len(),
{
    kiln.task_count()
}

/// `Kiln::add_entry`: appends an entry with the given label and the metrics
/// of an already fired task output, keeping the earlier entries, the cooled
/// flag and the profile. The metrics (floating point) are not stated.
#[verifier::external_body]
fn kiln_add_entry<T>(kiln: &mut Kiln, label: String, fired: TaskOutput<T>)
    ensures
        kiln_labels(*final(kiln)) == kiln_labels(*old(kiln)).push(label@),
        kiln_cooled(*final(kiln)) == kiln_cooled(*old(kiln)),
        kiln_profile(*final(kiln)) == kiln_profile(*old(kiln)),
{
    kiln.add_entry(label, fired.metrics)
}

/// `Kiln::cool`: marks the kiln cooled, keeps its entries and profile, and
/// returns the patterns its enabled detectors found; with fewer entries than
/// its cooling rate needs, or with no detector enabled, there are none. The
/// patterns come sorted by confidence, highest first; neither which patterns
/// are found nor that order is stated, since both rest on floating-point
/// metrics and confidences.
#[verifier::external_body]
fn kiln_cool(kiln: &mut Kiln) -> (patterns: Vec<CracklePattern>)
    ensures
        kiln_cooled(*final(kiln)),
        kiln_labels(*final(kiln)) == kiln_labels(*old(kiln)),
        kiln_profile(*final(kiln)) == kiln_profile(*old(kiln)),
        kiln_labels(*old(kiln)).len() < min_tasks_for_detection(profile_rate(kiln_profile(*old(kiln))))
            ==> patterns@.len() == 0,
        none_enabled(profile_detectors(kiln_profile(*old(kiln)))) ==> patterns@.len() == 0,
{
    kiln.cool()
}

/// `Kiln::reset`: clears every entry and un-cools the kiln; the profile
/// stays.
#[verifier::external_body]
fn kiln_reset(kiln: &mut Kiln)
    ensures
        kiln_labels(*final(kiln)) == Seq::<Seq<char>>::empty(),
        !kiln_cooled(*final(kiln)),
        kiln_profile(*final(kiln)) == kiln_profile(*old(kiln)),
{
    kiln.reset()
}

// ---- A service's metrics collector ----

/// Why a snapshot was not recorded.
#[derive(Debug, Clone, Copy, PartialEq, Eq, Structural)]
pub enum RecordError {
    /// The collector has been cooled; reset it to record again.
    KilnCooled,
}

/// What a collector is, for its contracts: the service it observes, the
/// labels of the snapshots it holds (in order), whether it has been cooled,
/// and the thermal profile of its kiln.
pub struct MetricsView {
    pub service_name: Seq<char>,
    pub labels: Seq<Seq<char>>,
    pub cooled: bool,
    pub profile: ThermalProfile,
}

/// The collector after recording a snapshot with the given label: a cooled
/// collector is unchanged (and the record refused); otherwise the snapshot
/// is appended.
pub open spec fn after_record(v: MetricsView, label: Seq<char>) -> MetricsView {
    if v.cooled {
        v
    } else {
        MetricsView { labels: v.labels.push(label), ..v }
    }
}

/// The collector after cooling: its snapshots stay, it refuses new ones.
pub open spec fn after_cool(v: MetricsView) -> MetricsView {
    MetricsView { cooled: true, ..v }
}

/// The collector after a reset: empty and accepting snapshots again, for
/// the same service and with the same profile.
pub open spec fn after_reset(v: MetricsView) -> MetricsView {
    MetricsView { labels: Seq::empty(), cooled: false, ..v }
}

/// A per-service metrics collector over a crackle-runtime kiln: it records
/// fired snapshots over an observation window, then cools to detect the
/// patterns that emerged.
pub struct ServiceMetrics {
    service_name: String,
    kiln: Kiln,
}

impl View for ServiceMetrics {
    type V = MetricsView;

    closed spec fn view(&self) -> MetricsView {
        MetricsView {
            service_name: self.service_name@,
            labels: kiln_labels(self.kiln),
            cooled: kiln_cooled(self.kiln),
            profile: kiln_profile(self.kiln),
        }
    }
}

impl ServiceMetrics {
    /// A collector for the named service; its kiln cools fast, for the most
    /// sensitive anomaly detection, with every detector enabled and ten
    /// seconds of cooling.
    pub fn new(service_name: &str) -> (m: Self)
        ensures
            m@.service_name == service_name@,
            m@.labels == Seq::<Seq<char>>::empty(),
            !m@.cooled,
            profile_rate(m@.profile) == CoolingRate::Fast,
            profile_detectors(m@.profile) == (Detectors {
                clustering: true,
                phase_transitions: true,
                conservation: true,
                correlations: true,
            }),
            profile_max_cooling_nanos(m@.profile) == 10_000_000_000,
    {
        ServiceMetrics { service_name: String::from_str(service_name), kiln: new_kiln(fast_cooling_profile()) }
    }

    /// A collector for the named service with a custom thermal profile.
    pub fn with_profile(service_name: &str, profile: ThermalProfile) -> (m: Self)
        ensures
            m@ == (MetricsView {
                service_name: service_name@,
                labels: Seq::empty(),
                cooled: false,
                profile: profile,
            }),
    {
        ServiceMetrics { service_name: String::from_str(service_name), kiln: new_kiln(profile) }
    }

    /// Records a fired snapshot under the given label. After `cool` the
    /// collector refuses it with `Err(KilnCooled)` and stays as it was.
    pub fn record<T>(&mut self, label: &str, fired: TaskOutput<T>) -> (r: Result<(), RecordError>)
        ensures
            final(self)@ == after_record(old(self)@, label@),
            r is Err <==> old(self)@.cooled,
            r matches Err(e) ==> e == RecordError::KilnCooled,
    {
        if kiln_is_cooled(&self.kiln) {
            return Err(RecordError::KilnCooled);
        }
        kiln_add_entry(&mut self.kiln, String::from_str(label), fired);
        Ok(())
    }

    /// Cools the kiln and returns the patterns detected across all recorded
    /// snapshots, sorted by confidence, highest first; with fewer snapshots
    /// than the profile's cooling rate needs, or with no detector enabled,
    /// there are none. No more snapshots are accepted until `reset`.
    pub fn cool(&mut self) -> (patterns: Vec<CracklePattern>)
        ensures
            final(self)@ == after_cool(old(self)@),
            old(self)@.labels.len() < min_tasks_for_detection(profile_rate(old(self)@.profile))
                ==> patterns@.len() == 0,
            none_enabled(profile_detectors(old(self)@.profile)) ==> patterns@.len() == 0,
    {
        kiln_cool(&mut self.kiln)
    }

    /// The number of snapshots recorded.
    pub fn count(&self) -> (n: usize)
        ensures
            n == self@.labels.len(),
    {
        kiln_task_count(&self.kiln)
    }

    /// The name of the observed service.
    pub fn service_name(&self) -> (name: &str)
        ensures
            name@ == self@.service_name,
    {
        self.service_name.as_str()
    }

    /// The underlying kiln, for advanced use.
    pub fn kiln(&self) -> (k: &Kiln)
        ensures
            kiln_labels(*k) == self@.labels,
            kiln_cooled(*k) == self@.cooled,
            kiln_profile(*k) == self@.profile,
    {
        &self.kiln
    }

    /// Starts a new observation window: no snapshots, accepting records.
    pub fn reset(&mut self)
        ensures
            final(self)@ == after_reset(old(self)@),
    {
        kiln_reset(&mut self.kiln)
    }
}

/// Law: a cooled collector refuses every further snapshot and is left
/// exactly as it was.
pub proof fn law_cooled_refuses_records(v: MetricsView, label: Seq<char>)
    ensures
        after_record(after_cool(v), label) == after_cool(v),
        after_cool(v).cooled,
{
}

/// Law: each accepted snapshot adds exactly one entry, after the earlier
/// ones; cooling keeps the entries.
pub proof fn law_record_counts_one(v: MetricsView, label: Seq<char>)
    ensures
        !v.cooled ==> after_record(v, label).labels.len() == v.labels.len() + 1,
        !v.cooled ==> after_record(v, label).labels.last() == label,
        after_cool(v).labels == v.labels,
{
}

/// Law: a reset undoes both recording and cooling: the collector is empty,
/// accepts snapshots again, and still observes the same service with the
/// same profile.
pub proof fn law_reset_reopens(v: MetricsView, label: Seq<char>)
    ensures
        after_reset(v).labels.len() == 0,
        !after_reset(v).cooled,
        after_reset(v).service_name == v.service_name,
        after_reset(v).profile == v.profile,
        after_record(after_reset(v), label).labels.len() == 1,
        after_reset(after_record(v, label)) == after_reset(v),
        after_reset(after_cool(v)) == after_reset(v),
{
}

} // verus!
