use vstd::prelude::*;

verus! {

/// Where a service stands in its lifecycle.
///
/// | Pattern phase   | SRE state | Meaning                                 |
/// |-----------------|-----------|-----------------------------------------|
/// | Pre-transition  | Nominal   | healthy, metrics are stable             |
/// | Transitioning   | Degrading | showing signs of trouble                |
/// | Post-transition | Recovered | returned to health                      |
#[derive(Debug, Clone, Copy, PartialEq, Eq, Structural)]
pub enum SreState {
    /// Operating normally: no concerning patterns detected.
    Nominal,
    /// Phase transitions, clustering or correlations indicate change.
    Degrading,
    /// Conservation patterns suggest that stability returned.
    Recovered,
}

/// The lower-case label of a state.
pub open spec fn state_label(s: SreState) -> Seq<char> {
    match s {
        SreState::Nominal => "nominal"@,
        SreState::Degrading => "degrading"@,
        SreState::Recovered => "recovered"@,
    }
}

/// The capitalised name of a state, as summary lines write it.
pub open spec fn state_name(s: SreState) -> Seq<char> {
    match s {
        SreState::Nominal => "Nominal"@,
        SreState::Degrading => "Degrading"@,
        SreState::Recovered => "Recovered"@,
    }
}

/// ASCII upper-casing of one character.
pub open spec fn upper_char(c: char) -> char {
    if 'a' <= c && c <= 'z' {
        ((c as u32) - 32) as char
    } else {
        c
    }
}

/// ASCII upper-casing of a text.
pub open spec fn ascii_upper(s: Seq<char>) -> Seq<char> {
    s.map_values(|c: char| upper_char(c))
}

impl SreState {
    /// Human-readable label for this state.
    pub fn label(&self) -> (r: &'static str)
        ensures
            r@ == state_label(*self),
    {
        match self {
            SreState::Nominal => "nominal",
            SreState::Degrading => "degrading",
            SreState::Recovered => "recovered",
        }
    }

    /// The capitalised name of this state, as summary lines write it.
    pub fn name(&self) -> (r: &'static str)
        ensures
            r@ == state_name(*self),
    {
        match self {
            SreState::Nominal => "Nominal",
            SreState::Degrading => "Degrading",
            SreState::Recovered => "Recovered",
        }
    }

    /// The label in capitals, as it heads a summary.
    pub fn upper_label(&self) -> (r: &'static str)
        ensures
            r@ == ascii_upper(state_label(*self)),
    {
        proof {
            reveal_strlit("nominal");
            reveal_strlit("degrading");
            reveal_strlit("recovered");
            reveal_strlit("NOMINAL");
            reveal_strlit("DEGRADING");
            reveal_strlit("RECOVERED");
        }
        match self {
            SreState::Nominal => {
                assert("NOMINAL"@ =~= ascii_upper("nominal"@));
                "NOMINAL"
            },
            SreState::Degrading => {
                assert("DEGRADING"@ =~= ascii_upper("degrading"@));
                "DEGRADING"
            },
            SreState::Recovered => {
                assert("RECOVERED"@ =~= ascii_upper("recovered"@));
                "RECOVERED"
            },
        }
    }

    /// Whether this state requires attention: only a degrading service does.
    pub fn requires_attention(&self) -> (r: bool)
        ensures
            r == (*self == SreState::Degrading),
    {
        match self {
            SreState::Degrading => true,
            _ => false,
        }
    }
}


/// The kind of a pattern detected while a kiln cools.
#[derive(Debug, Clone, Copy, PartialEq, Eq, Structural)]
pub enum PatternKind {
    /// Tasks that cluster together in metric space.
    Clustering,
    /// A shift in output distribution.
    PhaseTransition,
    /// A conservation law that holds across a group of tasks.
    Conservation,
    /// An unexpected correlation between seemingly unrelated tasks.
    Correlation,
}

/// The name of a pattern kind, as summary lines write it.
pub open spec fn kind_name(k: PatternKind) -> Seq<char> {
    match k {
        PatternKind::Clustering => "Clustering"@,
        PatternKind::PhaseTransition => "PhaseTransition"@,
        PatternKind::Conservation => "Conservation"@,
        PatternKind::Correlation => "Correlation"@,
    }
}

/// The SRE state that a pattern kind signals: only a conservation law means
/// recovery, every other kind means degradation.
pub open spec fn kind_state(k: PatternKind) -> SreState {
    match k {
        PatternKind::Conservation => SreState::Recovered,
        _ => SreState::Degrading,
    }
}

impl PatternKind {
    /// The name of this kind, as summary lines write it.
    pub fn name(&self) -> (r: &'static str)
        ensures
            r@ == kind_name(*self),
    {
        match self {
            PatternKind::Clustering => "Clustering",
            PatternKind::PhaseTransition => "PhaseTransition",
            PatternKind::Conservation => "Conservation",
            PatternKind::Correlation => "Correlation",
        }
    }
}

/// What a detected pattern says: its kind, its description, and its
/// confidence in hundredths (0 to 100), or `None` where the confidence is
/// not a number.
pub struct PatternView {
    pub kind: PatternKind,
    pub description: Seq<char>,
    pub confidence: Option<nat>,
}

/// A detected pattern, as the phase detector reads it.
///
/// The confidence is kept in hundredths, the precision at which it is
/// reported; it never exceeds 100. A confidence that is not a number is
/// kept as `None`.
pub struct Pattern {
    kind: PatternKind,
    description: String,
    confidence: Option<u32>,
}

impl View for Pattern {
    type V = PatternView;

    closed spec fn view(&self) -> PatternView {
        PatternView {
            kind: self.kind,
            description: self.description@,
            confidence: match self.confidence {
                Some(c) => Some(c as nat),
                None => None,
            },
        }
    }
}

impl Pattern {
    #[verifier::type_invariant]
    spec fn confidence_in_range(self) -> bool {
        self.confidence matches Some(c) ==> c <= 100
    }

    /// A pattern of the given kind and description; a confidence above 100
    /// hundredths is clamped to 100.
    pub fn new(kind: PatternKind, description: &str, confidence: u32) -> (p: Pattern)
        ensures
            p@.kind == kind,
            p@.description == description@,
            p@.confidence == Some(if confidence <= 100 { confidence as nat } else { 100 }),
    {
        let c: u32 = if confidence <= 100 { confidence } else { 100 };
        Pattern { kind, description: String::from_str(description), confidence: Some(c) }
    }

    /// A pattern of the given kind and description whose confidence is not
    /// a number.
    pub fn without_confidence(kind: PatternKind, description: &str) -> (p: Pattern)
        ensures
            p@.kind == kind,
            p@.description == description@,
            p@.confidence == None::<nat>,
    {
        Pattern { kind, description: String::from_str(description), confidence: None }
    }

    /// The kind of this pattern.
    pub fn kind(&self) -> (k: PatternKind)
        ensures
            k == self@.kind,
    {
        self.kind
    }

    /// The description of this pattern.
    pub fn description(&self) -> (d: &str)
        ensures
            d@ == self@.description,
    {
        self.description.as_str()
    }

    /// The confidence in hundredths, or `None` where it is not a number.
    pub fn confidence(&self) -> (c: Option<u32>)
        ensures
            c matches Some(v) ==> self@.confidence == Some(v as nat) && v <= 100,
            c is None <==> self@.confidence is None,
    {
        proof {
            use_type_invariant(self);
        }
        self.confidence
    }
}

/// The kinds of a sequence of patterns, in order.
pub open spec fn kinds(ps: Seq<PatternView>) -> Seq<PatternKind> {
    ps.map_values(|p: PatternView| p.kind)
}

/// The views of a slice of patterns.
pub open spec fn views(ps: Seq<Pattern>) -> Seq<PatternView> {
    ps.map_values(|p: Pattern| p@)
}

/// The overall state of a set of pattern kinds: no kinds at all is Nominal;
/// any kind that signals degradation makes it Degrading; otherwise (every
/// kind signals recovery) it is Recovered.
pub open spec fn aggregate(ks: Seq<PatternKind>) -> SreState {
    if ks.len() == 0 {
        SreState::Nominal
    } else if exists|i: int| 0 <= i < ks.len() && kind_state(#[trigger] ks[i]) == SreState::Degrading {
        SreState::Degrading
    } else {
        SreState::Recovered
    }
}

/// Law: the overall state does not depend on the order in which patterns
/// were detected.
pub proof fn law_aggregate_order_independent(a: Seq<PatternKind>, b: Seq<PatternKind>)
    ensures
        aggregate(a + b) == aggregate(b + a),
{
    let ab = a + b;
    let ba = b + a;
    if exists|i: int| 0 <= i < ab.len() && kind_state(#[trigger] ab[i]) == SreState::Degrading {
        let i: int = choose|i: int| 0 <= i < ab.len() && kind_state(#[trigger] ab[i]) == SreState::Degrading;
        if i < a.len() {
            assert(ba[b.len() + i] == ab[i]);
        } else {
            assert(ba[i - a.len()] == ab[i]);
        }
    }
    if exists|i: int| 0 <= i < ba.len() && kind_state(#[trigger] ba[i]) == SreState::Degrading {
        let i: int = choose|i: int| 0 <= i < ba.len() && kind_state(#[trigger] ba[i]) == SreState::Degrading;
        if i < b.len() {
            assert(ab[a.len() + i] == ba[i]);
        } else {
            assert(ab[i - b.len()] == ba[i]);
        }
    }
}

/// Law: once a set of patterns is Degrading, more patterns, whatever their
/// kind, cannot make it anything else: degradation overrides recovery.
pub proof fn law_degrading_persists(a: Seq<PatternKind>, b: Seq<PatternKind>)
    requires
        aggregate(a) == SreState::Degrading,
    ensures
        aggregate(a + b) == SreState::Degrading,
        aggregate(b + a) == SreState::Degrading,
{
    let i: int = choose|i: int| 0 <= i < a.len() && kind_state(#[trigger] a[i]) == SreState::Degrading;
    assert((a + b)[i] == a[i]);
    assert((b + a)[b.len() + i] == a[i]);
}

/// Law: a set of patterns requires attention exactly when one of its
/// patterns signals degradation.
pub proof fn law_attention_iff_degrading_pattern(ks: Seq<PatternKind>)
    ensures
        (aggregate(ks) == SreState::Degrading) <==> exists|i: int|
            0 <= i < ks.len() && kind_state(#[trigger] ks[i]) == SreState::Degrading,
{
}

/// The character of a decimal digit.
pub open spec fn digit_char(d: nat) -> char {
    ((d % 10) + 48) as char
}

/// A confidence in hundredths written with two decimals, as `0.85` or
/// `1.00`; a confidence that is not a number is written `NaN`.
pub open spec fn confidence_text(c: Option<nat>) -> Seq<char> {
    match c {
        Some(c) => seq![digit_char(c / 100), '.', digit_char((c / 10) % 10), digit_char(c % 10)],
        None => "NaN"@,
    }
}

/// One summary line: the pattern's kind and the state it signals, its
/// description and its confidence.
pub open spec fn pattern_line(p: PatternView) -> Seq<char> {
    "  ["@ + kind_name(p.kind) + " \u{2192} "@ + state_name(kind_state(p.kind)) + "] "@
        + p.description + " (confidence: "@ + confidence_text(p.confidence) + ")"@
}

/// How a summary line begins for each kind: the kind, an arrow, and the
/// state that kind signals.
pub open spec fn line_head(k: PatternKind) -> Seq<char> {
    match k {
        PatternKind::Clustering => "  [Clustering \u{2192} Degrading] "@,
        PatternKind::PhaseTransition => "  [PhaseTransition \u{2192} Degrading] "@,
        PatternKind::Conservation => "  [Conservation \u{2192} Recovered] "@,
        PatternKind::Correlation => "  [Correlation \u{2192} Degrading] "@,
    }
}

/// Law: a pattern's line names its kind and, after the arrow, the state
/// that kind signals (Degrading for clustering, phase transitions and
/// correlations, Recovered only for conservation laws), then gives the
/// pattern's description and its confidence.
pub proof fn law_pattern_line_names_its_state(p: PatternView)
    ensures
        pattern_line(p) == line_head(p.kind) + p.description + " (confidence: "@ + confidence_text(p.confidence)
            + ")"@,
{
    reveal_strlit("  [");
    reveal_strlit(" \u{2192} ");
    reveal_strlit("] ");
    reveal_strlit("Clustering");
    reveal_strlit("PhaseTransition");
    reveal_strlit("Conservation");
    reveal_strlit("Correlation");
    reveal_strlit("Degrading");
    reveal_strlit("Recovered");
    reveal_strlit("  [Clustering \u{2192} Degrading] ");
    reveal_strlit("  [PhaseTransition \u{2192} Degrading] ");
    reveal_strlit("  [Conservation \u{2192} Recovered] ");
    reveal_strlit("  [Correlation \u{2192} Degrading] ");
    let head = "  ["@ + kind_name(p.kind) + " \u{2192} "@ + state_name(kind_state(p.kind)) + "] "@;
    assert(head =~= line_head(p.kind));
    assert(pattern_line(p) =~= line_head(p.kind) + p.description + " (confidence: "@ + confidence_text(
        p.confidence,
    ) + ")"@);
}

/// The pattern lines, each after a line break.
pub open spec fn pattern_lines(ps: Seq<PatternView>) -> Seq<char>
    decreases ps.len(),
{
    if ps.len() == 0 {
        Seq::empty()
    } else {
        pattern_lines(ps.drop_last()) + "\n"@ + pattern_line(ps.last())
    }
}

/// The head of a summary: the overall state in capitals, framed, then a
/// blank line and the title of the pattern list.
pub open spec fn heading(s: SreState) -> Seq<char> {
    "=== SYSTEM STATE: "@ + ascii_upper(state_label(s)) + " ===\n\nPatterns detected:"@
}

/// The whole summary of a set of patterns.
pub open spec fn summary_text(ps: Seq<PatternView>) -> Seq<char> {
    heading(aggregate(kinds(ps))) + pattern_lines(ps)
}

/// Where, in the list of pattern lines, the line of pattern `k` begins.
pub open spec fn line_offset(ps: Seq<PatternView>, k: int) -> int {
    pattern_lines(ps.take(k)).len() as int
}

proof fn lemma_pattern_lines_prefix(ps: Seq<PatternView>, j: int)
    requires
        0 <= j <= ps.len(),
    ensures
        pattern_lines(ps.take(j)).len() <= pattern_lines(ps).len(),
        pattern_lines(ps).subrange(0, pattern_lines(ps.take(j)).len() as int) == pattern_lines(ps.take(j)),
    decreases ps.len(),
{
    if j == ps.len() {
        assert(ps.take(j) =~= ps);
        assert(pattern_lines(ps).subrange(0, pattern_lines(ps).len() as int) =~= pattern_lines(ps));
    } else {
        let d = ps.drop_last();
        lemma_pattern_lines_prefix(d, j);
        assert(d.take(j) =~= ps.take(j));
        let pre = pattern_lines(ps.take(j));
        assert(pattern_lines(ps) == pattern_lines(d) + "\n"@ + pattern_line(ps.last()));
        assert(pattern_lines(ps).subrange(0, pre.len() as int) =~= pattern_lines(d).subrange(0, pre.len() as int));
    }
}

/// Law: the summary lists every pattern on a line of its own, in the order
/// of the patterns: the line of pattern `k` (its kind, the state it
/// signals, its description and its confidence) follows a line break at
/// `line_offset(ps, k)` after the head, and the next pattern's line starts
/// right after it.
pub proof fn law_summary_lists_each_pattern(ps: Seq<PatternView>, k: int)
    requires
        0 <= k < ps.len(),
    ensures
        ({
            let start = heading(aggregate(kinds(ps))).len() + line_offset(ps, k);
            let line = "\n"@ + pattern_line(ps[k]);
            &&& start + line.len() <= summary_text(ps).len()
            &&& summary_text(ps).subrange(start, start + line.len()) == line
            &&& line_offset(ps, k + 1) == line_offset(ps, k) + line.len()
        }),
{
    let t = ps.take(k + 1);
    assert(t.drop_last() =~= ps.take(k));
    assert(t.last() == ps[k]);
    lemma_pattern_lines_prefix(ps, k + 1);
    let h = heading(aggregate(kinds(ps)));
    let lines = pattern_lines(ps);
    let line = "\n"@ + pattern_line(ps[k]);
    let off = line_offset(ps, k);
    assert(pattern_lines(t) =~= pattern_lines(ps.take(k)) + line);
    assert(lines.subrange(off, off + line.len()) =~= line) by {
        assert(lines.subrange(0, pattern_lines(t).len() as int) == pattern_lines(t));
        assert forall|i: int| 0 <= i < line.len() implies lines.subrange(off, off + line.len())[i] == line[i] by {
            assert(lines[off + i] == lines.subrange(0, pattern_lines(t).len() as int)[off + i]);
        }
    }
    assert(summary_text(ps).subrange(h.len() + off, h.len() + off + line.len()) =~= lines.subrange(off, off + line.len()));
}

/// The text of a decimal digit.
fn digit_text(d: u32) -> (r: &'static str)
    requires
        d < 10,
    ensures
        r@ == seq![digit_char(d as nat)],
{
    proof {
        reveal_strlit("0");
        reveal_strlit("1");
        reveal_strlit("2");
        reveal_strlit("3");
        reveal_strlit("4");
        reveal_strlit("5");
        reveal_strlit("6");
        reveal_strlit("7");
        reveal_strlit("8");
        reveal_strlit("9");
    }
    let r = match d {
        0 => "0",
        1 => "1",
        2 => "2",
        3 => "3",
        4 => "4",
        5 => "5",
        6 => "6",
        7 => "7",
        8 => "8",
        _ => "9",
    };
    assert(r@ =~= seq![digit_char(d as nat)]);
    r
}

/// Appends a confidence of at most 100 hundredths with two decimals, or
/// `NaN` for a confidence that is not a number.
fn push_confidence(text: &mut String, c: Option<u32>)
    requires
        c matches Some(v) ==> v <= 100,
    ensures
        final(text)@ == old(text)@ + confidence_text(
            match c {
                Some(v) => Some(v as nat),
                None => None,
            },
        ),
{
    match c {
        Some(v) => {
            proof {
                reveal_strlit(".");
            }
            text.append(digit_text(v / 100));
            text.append(".");
            text.append(digit_text((v / 10) % 10));
            text.append(digit_text(v % 10));
            assert(final(text)@ =~= old(text)@ + confidence_text(Some(v as nat)));
        },
        None => {
            text.append("NaN");
        },
    }
}

/// Maps pattern kinds, and sets of patterns, to SRE states.
pub struct PhaseDetector;

impl PhaseDetector {
    /// The SRE state that a pattern kind signals.
    pub fn pattern_to_state(kind: &PatternKind) -> (s: SreState)
        ensures
            s == kind_state(*kind),
    {
        match kind {
            PatternKind::Clustering => SreState::Degrading,
            PatternKind::PhaseTransition => SreState::Degrading,
            PatternKind::Correlation => SreState::Degrading,
            PatternKind::Conservation => SreState::Recovered,
        }
    }

    /// The overall SRE state of a set of patterns. The decision is
    /// conservative: any degrading pattern makes the state Degrading, a
    /// non-empty set of recovery patterns only makes it Recovered, and no
    /// patterns at all is Nominal. Confidence plays no part.
    pub fn aggregate_state(patterns: &[Pattern]) -> (s: SreState)
        ensures
            s == aggregate(kinds(views(patterns@))),
            (s == SreState::Nominal) <==> patterns@.len() == 0,
            (s == SreState::Degrading) <==> exists|i: int|
                0 <= i < patterns@.len() && kind_state(#[trigger] patterns@[i]@.kind)
                    == SreState::Degrading,
            (s == SreState::Recovered) <==> (patterns@.len() > 0 && forall|i: int|
                0 <= i < patterns@.len() ==> kind_state(#[trigger] patterns@[i]@.kind)
                    == SreState::Recovered),
    {
        let ghost ks = kinds(views(patterns@));
        if patterns.len() == 0 {
            return SreState::Nominal;
        }
        let mut has_degrading = false;
        let mut has_recovered = false;
        let mut i: usize = 0;
        while i < patterns.len()
            invariant
                0 <= i <= patterns@.len(),
                ks == kinds(views(patterns@)),
                ks.len() == patterns@.len(),
                has_degrading <==> exists|j: int| 0 <= j < i && kind_state(#[trigger] ks[j]) == SreState::Degrading,
                has_recovered ==> i > 0,
            decreases patterns@.len() - i,
        {
            let k = patterns[i].kind();
            assert(ks[i as int] == k);
            match Self::pattern_to_state(&k) {
                SreState::Degrading => {
                    has_degrading = true;
                },
                SreState::Recovered => {
                    has_recovered = true;
                },
                SreState::Nominal => {},
            }
            i = i + 1;
        }
        assert forall|j: int| 0 <= j < patterns@.len() implies #[trigger] patterns@[j]@.kind == ks[j] by {}
        if has_degrading {
            SreState::Degrading
        } else if has_recovered {
            SreState::Recovered
        } else {
            // Every pattern signals either degradation or recovery.
            assert(kind_state(ks[0]) == SreState::Recovered);
            SreState::Recovered
        }
    }

    /// A human-readable report: the overall state in capitals, framed as
    /// `=== SYSTEM STATE: DEGRADING ===`, a blank line, the title
    /// `Patterns detected:`, then one line per pattern giving its kind, the
    /// state it signals, its description and its confidence with two
    /// decimals, as `[PhaseTransition -> Degrading] latency shifted (confidence: 0.85)`
    /// (indented by two spaces, with an arrow character).
    pub fn summarize(patterns: &[Pattern]) -> (text: String)
        ensures
            text@ == summary_text(views(patterns@)),
    {
        let ghost ps = views(patterns@);
        let state = Self::aggregate_state(patterns);
        let mut text = String::from_str("=== SYSTEM STATE: ");
        text.append(state.upper_label());
        text.append(" ===\n\nPatterns detected:");
        assert(ps.take(0) =~= Seq::<PatternView>::empty());
        let mut i: usize = 0;
        while i < patterns.len()
            invariant
                0 <= i <= patterns@.len(),
                ps == views(patterns@),
                text@ == heading(aggregate(kinds(ps))) + pattern_lines(ps.take(i as int)),
            decreases patterns@.len() - i,
        {
            let p = &patterns[i];
            let kind = p.kind();
            let ghost before = text@;
            text.append("\n");
            text.append("  [");
            text.append(kind.name());
            text.append(" \u{2192} ");
            text.append(Self::pattern_to_state(&kind).name());
            text.append("] ");
            text.append(p.description());
            text.append(" (confidence: ");
            push_confidence(&mut text, p.confidence());
            text.append(")");
            assert(ps.take(i + 1).drop_last() =~= ps.take(i as int));
            assert(ps.take(i + 1).last() == p@);
            assert(text@ =~= before + "\n"@ + pattern_line(p@));
            i = i + 1;
        }
        assert(ps.take(patterns@.len() as int) =~= ps);
        text
    }
}

} // verus!
