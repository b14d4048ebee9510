//! Output descriptors and the topology snapshot made of them.

use vstd::prelude::*;
use crate::rotation::Rotation;
use crate::edid::{display_code_of, identity_code};
use crate::text::{
    decimal, join, lemma_not_precedes_transitive, lemma_precedes_asymmetric,
    lemma_precedes_irreflexive, name_precedes, precedes, push_decimal,
};

verus! {

/// What is known of one output at one point in time.
#[derive(Debug, PartialEq, Eq)]
pub struct Output {
    /// The name of the physical port, such as `HDMI-1`.
    pub name: String,
    /// The identity code of the attached display, or zero where it is unknown.
    pub edid: u64,
    /// Whether this output is the session's primary one.
    pub is_primary: bool,
    /// Whether a display reports attached.
    pub is_connected: bool,
    /// Whether the output drives an active rendering region.
    pub mapped: bool,
    /// The offset of that region, present where the output is mapped.
    pub position: Option<(i16, i16)>,
    /// The orientation of the picture.
    pub rotate: Rotation,
    /// The resolution of that region, present where the output is mapped.
    pub mode: Option<(u16, u16)>,
}

/// The mathematical value of an [`Output`].
pub struct OutputView {
    pub name: Seq<char>,
    pub edid: u64,
    pub is_primary: bool,
    pub is_connected: bool,
    pub mapped: bool,
    pub position: Option<(i16, i16)>,
    pub rotate: Rotation,
    pub mode: Option<(u16, u16)>,
}

impl OutputView {
    /// An output has a position and a mode exactly when it is mapped.
    pub open spec fn well_formed(self) -> bool {
        &&& self.position.is_some() == self.mapped
        &&& self.mode.is_some() == self.mapped
    }
}

impl View for Output {
    type V = OutputView;

    open spec fn view(&self) -> OutputView {
        OutputView {
            name: self.name@,
            edid: self.edid,
            is_primary: self.is_primary,
            is_connected: self.is_connected,
            mapped: self.mapped,
            position: self.position,
            rotate: self.rotate,
            mode: self.mode,
        }
    }
}

impl Clone for Output {
    fn clone(&self) -> (r: Self)
        ensures
            r@ == self@,
    {
        Output {
            name: self.name.clone(),
            edid: self.edid,
            is_primary: self.is_primary,
            is_connected: self.is_connected,
            mapped: self.mapped,
            position: self.position,
            rotate: self.rotate,
            mode: self.mode,
        }
    }
}

fn same_position(a: Option<(i16, i16)>, b: Option<(i16, i16)>) -> (r: bool)
    ensures
        r == (a == b),
{
    match (a, b) {
        (Some(p), Some(q)) => p.0 == q.0 && p.1 == q.1,
        (None, None) => true,
        _ => false,
    }
}

fn same_mode(a: Option<(u16, u16)>, b: Option<(u16, u16)>) -> (r: bool)
    ensures
        r == (a == b),
{
    match (a, b) {
        (Some(p), Some(q)) => p.0 == q.0 && p.1 == q.1,
        (None, None) => true,
        _ => false,
    }
}

impl Output {
    /// An output has a position and a mode exactly when it is mapped.
    pub open spec fn well_formed(&self) -> bool {
        self@.well_formed()
    }

    /// The descriptor of the output that `probe` reports, in a session whose
    /// primary output has the identifier `primary`.
    pub fn from_probe(primary: u32, probe: &OutputProbe) -> (r: Output)
        ensures
            r@ == describe(primary, probe@),
            r.well_formed(),
    {
        let edid = display_code_of(&probe.edid_block);
        match probe.crtc {
            Some(crtc) => Output {
                name: probe.name.clone(),
                edid,
                is_primary: probe.id == primary,
                is_connected: probe.connected,
                mapped: true,
                position: Some((crtc.x, crtc.y)),
                rotate: Rotation::from_raw(crtc.rotation),
                mode: Some((crtc.width, crtc.height)),
            },
            None => Output {
                name: probe.name.clone(),
                edid,
                is_primary: probe.id == primary,
                is_connected: probe.connected,
                mapped: false,
                position: None,
                rotate: Rotation::Normal,
                mode: None,
            },
        }
    }

    /// Whether the two descriptors agree in every field.
    pub fn same(&self, other: &Output) -> (r: bool)
        ensures
            r == (self@ == other@),
    {
        self.name == other.name && self.edid == other.edid && self.is_primary == other.is_primary
            && self.is_connected == other.is_connected && self.mapped == other.mapped
            && same_position(self.position, other.position) && self.rotate == other.rotate
            && same_mode(self.mode, other.mode)
    }
}

/// The geometry of the active mode association of an output, as the
/// windowing session reports it.
#[derive(Clone, Copy, Debug, PartialEq, Eq, Structural)]
pub struct CrtcGeometry {
    pub x: i16,
    pub y: i16,
    pub width: u16,
    pub height: u16,
    /// The orientation, as the raw value of the windowing protocol.
    pub rotation: u16,
}

/// What one poll of the windowing session reported of one output.
#[derive(Debug, PartialEq, Eq)]
pub struct OutputProbe {
    /// The session's identifier of the output.
    pub id: u32,
    /// The name of the physical port.
    pub name: String,
    /// Whether a display reports attached.
    pub connected: bool,
    /// The identification block of the display, where the output has one.
    pub edid_block: Option<Vec<u8>>,
    /// The geometry of the active mode association, where there is one.
    pub crtc: Option<CrtcGeometry>,
}

/// The mathematical value of an [`OutputProbe`].
pub struct OutputProbeView {
    pub id: u32,
    pub name: Seq<char>,
    pub connected: bool,
    pub edid_block: Option<Seq<u8>>,
    pub crtc: Option<CrtcGeometry>,
}

impl View for OutputProbe {
    type V = OutputProbeView;

    open spec fn view(&self) -> OutputProbeView {
        OutputProbeView {
            id: self.id,
            name: self.name@,
            connected: self.connected,
            edid_block: match self.edid_block {
                Some(bytes) => Some(bytes@),
                None => None,
            },
            crtc: self.crtc,
        }
    }
}

/// The descriptor of the output that `probe` reports, in a session whose
/// primary output has the identifier `primary`. The output is mapped exactly
/// when it has an active mode association, which then gives its position,
/// mode and orientation.
pub open spec fn describe(primary: u32, probe: OutputProbeView) -> OutputView {
    OutputView {
        name: probe.name,
        edid: match probe.edid_block {
            Some(bytes) => identity_code(bytes),
            None => 0,
        },
        is_primary: probe.id == primary,
        is_connected: probe.connected,
        mapped: probe.crtc.is_some(),
        position: match probe.crtc {
            Some(crtc) => Some((crtc.x, crtc.y)),
            None => None,
        },
        rotate: match probe.crtc {
            Some(crtc) => Rotation::of_raw(crtc.rotation),
            None => Rotation::Normal,
        },
        mode: match probe.crtc {
            Some(crtc) => Some((crtc.width, crtc.height)),
            None => None,
        },
    }
}

/// The descriptors of the outputs that `probes` report, in the order of the
/// reports.
pub open spec fn describe_all(primary: u32, probes: Seq<OutputProbeView>) -> Seq<OutputView> {
    probes.map_values(|probe: OutputProbeView| describe(primary, probe))
}

/// The outputs of one poll cycle.
#[derive(Debug, PartialEq, Eq)]
pub struct State {
    pub outputs: Vec<Output>,
}

impl View for State {
    type V = Seq<OutputView>;

    open spec fn view(&self) -> Seq<OutputView> {
        self.outputs@.map_values(|o: Output| o@)
    }
}

impl Clone for State {
    fn clone(&self) -> (r: Self)
        ensures
            r@ == self@,
    {
        let mut outputs: Vec<Output> = Vec::new();
        let mut i: usize = 0;
        while i < self.outputs.len()
            invariant
                i <= self.outputs.len(),
                outputs@.len() == i,
                forall|j: int| 0 <= j < i ==> outputs@[j]@ == self.outputs@[j]@,
            decreases self.outputs.len() - i,
        {
            outputs.push(self.outputs[i].clone());
            i = i + 1;
        }
        let r = State { outputs };
        assert(r@ =~= self@);
        r
    }
}

/// Whether some connected output of `s` is not mapped.
pub open spec fn needs_map(s: Seq<OutputView>) -> bool {
    exists|i: int| 0 <= i < s.len() && s[i].is_connected && !s[i].mapped
}

/// Whether some output of `s` is mapped though no display is attached to it.
pub open spec fn needs_unmap(s: Seq<OutputView>) -> bool {
    exists|i: int| 0 <= i < s.len() && !s[i].is_connected && s[i].mapped
}

/// Whether the names of `s` stand in descending order: no output stands
/// before one whose name comes later in the order of a dictionary.
pub open spec fn descending(s: Seq<OutputView>) -> bool {
    forall|i: int, j: int| 0 <= i < j < s.len() ==> !precedes(#[trigger] s[i].name, #[trigger] s[j].name)
}

/// The first position at or after `from` whose output has a name that stands
/// before `name`, or the length of `sorted` where there is none.
pub open spec fn insertion_point_from(sorted: Seq<OutputView>, name: Seq<char>, from: int) -> int
    decreases sorted.len() - from,
{
    if from < 0 || from >= sorted.len() {
        sorted.len() as int
    } else if precedes(sorted[from].name, name) {
        from
    } else {
        insertion_point_from(sorted, name, from + 1)
    }
}

/// Where an output called `name` goes into `sorted`: behind every output
/// whose name does not stand before `name`, those of the same name included.
pub open spec fn insertion_point(sorted: Seq<OutputView>, name: Seq<char>) -> int {
    insertion_point_from(sorted, name, 0)
}

/// The outputs of `s` in descending order of their names. Outputs of the
/// same name keep the order that they have in `s`.
pub open spec fn sort_descending(s: Seq<OutputView>) -> Seq<OutputView>
    decreases s.len(),
{
    if s.len() == 0 {
        s
    } else {
        let sorted = sort_descending(s.drop_last());
        sorted.insert(insertion_point(sorted, s.last().name), s.last())
    }
}

/// The insertion point lies within the list; the names before it do not
/// stand before `name`, and the name at it does.
pub proof fn lemma_insertion_point(sorted: Seq<OutputView>, name: Seq<char>, from: int)
    requires
        0 <= from <= sorted.len(),
    ensures
        from <= insertion_point_from(sorted, name, from) <= sorted.len(),
        forall|k: int|
            from <= k < insertion_point_from(sorted, name, from) ==> !precedes(
                #[trigger] sorted[k].name,
                name,
            ),
        insertion_point_from(sorted, name, from) < sorted.len() ==> precedes(
            sorted[insertion_point_from(sorted, name, from)].name,
            name,
        ),
    decreases sorted.len() - from,
{
    if from < sorted.len() && !precedes(sorted[from].name, name) {
        lemma_insertion_point(sorted, name, from + 1);
    }
}

/// An output that goes into a descending list at its insertion point leaves
/// the list descending.
pub proof fn lemma_insert_keeps_descending(sorted: Seq<OutputView>, o: OutputView)
    requires
        descending(sorted),
    ensures
        descending(sorted.insert(insertion_point(sorted, o.name), o)),
{
    let at = insertion_point(sorted, o.name);
    lemma_insertion_point(sorted, o.name, 0);
    let after = sorted.insert(at, o);
    assert forall|i: int, j: int| 0 <= i < j < after.len() implies !precedes(
        #[trigger] after[i].name,
        #[trigger] after[j].name,
    ) by {
        if j == at {
            assert(after[i] == sorted[i]);
        } else if i == at {
            assert(after[j] == sorted[j - 1]);
            lemma_precedes_asymmetric(sorted[at].name, o.name, 0);
            if j - 1 > at {
                assert(!precedes(sorted[at].name, sorted[j - 1].name));
            } else {
                lemma_precedes_irreflexive(sorted[at].name, 0);
            }
            lemma_not_precedes_transitive(o.name, sorted[at].name, sorted[j - 1].name, 0);
        } else {
            let io = if i < at { i } else { i - 1 };
            let jo = if j < at { j } else { j - 1 };
            assert(after[i] == sorted[io]);
            assert(after[j] == sorted[jo]);
        }
    }
}

/// A sorted list is descending and holds what the list held, each output as
/// often as before.
pub proof fn lemma_sort_descending(s: Seq<OutputView>)
    ensures
        descending(sort_descending(s)),
        sort_descending(s).to_multiset() == s.to_multiset(),
        sort_descending(s).len() == s.len(),
    decreases s.len(),
{
    if s.len() > 0 {
        let sorted = sort_descending(s.drop_last());
        lemma_sort_descending(s.drop_last());
        lemma_insert_keeps_descending(sorted, s.last());
        lemma_insertion_point(sorted, s.last().name, 0);
        let at = insertion_point(sorted, s.last().name);
        vstd::seq_lib::to_multiset_insert(sorted, at, s.last());
        vstd::seq_lib::to_multiset_build(s.drop_last(), s.last());
        assert(s.drop_last().push(s.last()) =~= s);
    }
}

/// The connected outputs of `s`, in the order of `s`.
pub open spec fn connected(s: Seq<OutputView>) -> Seq<OutputView> {
    s.filter(|o: OutputView| o.is_connected)
}

/// The port name and identity code of each connected output of `s`, in the
/// order of `s`.
pub open spec fn identity_pairs(s: Seq<OutputView>) -> Seq<(Seq<char>, u64)> {
    connected(s).map_values(|o: OutputView| (o.name, o.edid))
}

/// What the signature holds for one display: the port name, a hyphen and the
/// identity code in decimal notation.
pub open spec fn pair_label(pair: (Seq<char>, u64)) -> Seq<char> {
    pair.0 + seq!['-'] + decimal(pair.1 as nat)
}

/// The signature of a list of port names and identity codes: their labels,
/// joined by commas.
pub open spec fn pairs_signature(pairs: Seq<(Seq<char>, u64)>) -> Seq<char> {
    join(pairs.map_values(|pair: (Seq<char>, u64)| pair_label(pair)), seq![','])
}

/// The signature of a snapshot: the key under which the layout of this
/// combination of displays is remembered. It is made of the connected
/// outputs' names and identity codes and of nothing else.
///
/// The identity code is part of the key even where it is zero, that is
/// unknown. Two unrelated displays without a readable identification block,
/// attached to ports of the same name, therefore share a signature.
pub open spec fn signature(s: Seq<OutputView>) -> Seq<char> {
    pairs_signature(identity_pairs(s))
}

/// Taking one more output into account: the pairs grow by its pair where it
/// is connected, and stay as they are where it is not.
pub proof fn lemma_identity_pairs_push(s: Seq<OutputView>, o: OutputView)
    ensures
        identity_pairs(s.push(o)) == if o.is_connected {
            identity_pairs(s).push((o.name, o.edid))
        } else {
            identity_pairs(s)
        },
{
    let pred = |o: OutputView| o.is_connected;
    s.lemma_filter_push(o, pred);
    if o.is_connected {
        assert(identity_pairs(s.push(o)) =~= identity_pairs(s).push((o.name, o.edid)));
    }
}

/// The signature of a list of pairs that grows by one pair.
pub proof fn lemma_pairs_signature_push(pairs: Seq<(Seq<char>, u64)>, pair: (Seq<char>, u64))
    ensures
        pairs_signature(pairs.push(pair)) == if pairs.len() == 0 {
            pair_label(pair)
        } else {
            pairs_signature(pairs) + seq![','] + pair_label(pair)
        },
{
    let f = |pair: (Seq<char>, u64)| pair_label(pair);
    let labels = pairs.push(pair).map_values(f);
    assert(labels.drop_last() =~= pairs.map_values(f));
    assert(labels.last() == pair_label(pair));
}

/// A snapshot in which one connected output is not mapped and another,
/// not connected, is still mapped needs both mapping and unmapping.
pub proof fn lemma_both_pending(s: Seq<OutputView>, i: int, j: int)
    requires
        0 <= i < s.len(),
        0 <= j < s.len(),
        s[i].is_connected && !s[i].mapped,
        !s[j].is_connected && s[j].mapped,
    ensures
        needs_map(s) && needs_unmap(s),
{
}

impl State {
    /// Whether the outputs stand in descending order of their names and each
    /// has a position and a mode exactly when it is mapped.
    pub open spec fn well_formed(&self) -> bool {
        &&& forall|i: int| 0 <= i < self@.len() ==> (#[trigger] self@[i]).well_formed()
        &&& descending(self@)
    }

    /// Puts `output` into `self`, which is in descending order, behind every
    /// output whose name does not stand before its own.
    fn insert_sorted(&mut self, output: Output)
        ensures
            final(self)@ == old(self)@.insert(
                insertion_point(old(self)@, output@.name),
                output@,
            ),
    {
        let mut at: usize = 0;
        while at < self.outputs.len() && !name_precedes(
            self.outputs[at].name.as_str(),
            output.name.as_str(),
        )
            invariant
                at <= self.outputs.len(),
                insertion_point(self@, output@.name) == insertion_point_from(
                    self@,
                    output@.name,
                    at as int,
                ),
            decreases self.outputs.len() - at,
        {
            at = at + 1;
        }
        self.outputs.insert(at, output);
        assert(self@ =~= old(self)@.insert(at as int, output@));
    }

    /// The snapshot of `outputs`: the same descriptors in descending order of
    /// their names, those of one name in the order in which they came.
    pub fn from_outputs(outputs: &Vec<Output>) -> (r: State)
        ensures
            r@ == sort_descending(outputs@.map_values(|o: Output| o@)),
            descending(r@),
            r@.to_multiset() == outputs@.map_values(|o: Output| o@).to_multiset(),
    {
        let ghost given = outputs@.map_values(|o: Output| o@);
        let mut r = State { outputs: Vec::new() };
        let mut i: usize = 0;
        assert(r@ =~= sort_descending(given.take(0)));
        while i < outputs.len()
            invariant
                i <= outputs.len(),
                given == outputs@.map_values(|o: Output| o@),
                r@ == sort_descending(given.take(i as int)),
            decreases outputs.len() - i,
        {
            assert(given.take(i as int + 1).drop_last() =~= given.take(i as int));
            r.insert_sorted(outputs[i].clone());
            i = i + 1;
        }
        assert(given.take(i as int) =~= given);
        proof {
            lemma_sort_descending(given);
        }
        r
    }

    /// The snapshot of one poll cycle, made of what the windowing session
    /// reported: `primary` is the identifier of its primary output, `probes`
    /// hold the report on each output, in any order. The descriptors stand in
    /// descending order of their names, so that the snapshot does not depend
    /// on the order of the reports.
    pub fn current(primary: u32, probes: &Vec<OutputProbe>) -> (r: State)
        ensures
            r@ == sort_descending(describe_all(primary, probes@.map_values(|p: OutputProbe| p@))),
            r@.to_multiset() == describe_all(
                primary,
                probes@.map_values(|p: OutputProbe| p@),
            ).to_multiset(),
            r.well_formed(),
    {
        let ghost reports = probes@.map_values(|p: OutputProbe| p@);
        let ghost given = describe_all(primary, reports);
        let mut r = State { outputs: Vec::new() };
        let mut i: usize = 0;
        assert(r@ =~= sort_descending(given.take(0)));
        while i < probes.len()
            invariant
                i <= probes.len(),
                reports == probes@.map_values(|p: OutputProbe| p@),
                given == describe_all(primary, reports),
                r@ == sort_descending(given.take(i as int)),
                forall|j: int| 0 <= j < r@.len() ==> (#[trigger] r@[j]).well_formed(),
            decreases probes.len() - i,
        {
            assert(given.take(i as int + 1).drop_last() =~= given.take(i as int));
            let output = Output::from_probe(primary, &probes[i]);
            proof {
                lemma_insertion_point(r@, output@.name, 0);
            }
            r.insert_sorted(output);
            i = i + 1;
        }
        assert(given.take(i as int) =~= given);
        proof {
            lemma_sort_descending(given);
        }
        r
    }

    /// The signature of the snapshot: for each connected output its name, a
    /// hyphen and its identity code, joined by commas in the snapshot's order.
    #[must_use]
    pub fn outputs_sign(&self) -> (sign: String)
        ensures
            sign@ == signature(self@),
    {
        let mut sign = String::new();
        let mut first = true;
        let mut i: usize = 0;
        proof {
            assert(self@.take(0) =~= Seq::<OutputView>::empty());
            reveal(Seq::filter);
            assert(identity_pairs(self@.take(0)) =~= Seq::<(Seq<char>, u64)>::empty());
        }
        while i < self.outputs.len()
            invariant
                i <= self.outputs.len(),
                first == (identity_pairs(self@.take(i as int)).len() == 0),
                sign@ == signature(self@.take(i as int)),
            decreases self.outputs.len() - i,
        {
            let output = &self.outputs[i];
            proof {
                assert(self@.take(i as int + 1) =~= self@.take(i as int).push(self@[i as int]));
                lemma_identity_pairs_push(self@.take(i as int), self@[i as int]);
                lemma_pairs_signature_push(
                    identity_pairs(self@.take(i as int)),
                    (output@.name, output@.edid),
                );
                reveal_strlit(",");
                reveal_strlit("-");
            }
            if output.is_connected {
                if !first {
                    sign.append(",");
                }
                sign.append(output.name.as_str());
                sign.append("-");
                push_decimal(&mut sign, output.edid);
                first = false;
                assert(sign@ =~= signature(self@.take(i as int + 1)));
            }
            i = i + 1;
        }
        assert(self@.take(i as int) =~= self@);
        sign
    }
    /// Whether the two snapshots hold the same descriptors in the same order.
    pub fn same(&self, other: &State) -> (r: bool)
        ensures
            r == (self@ == other@),
    {
        if self.outputs.len() != other.outputs.len() {
            assert(self@.len() != other@.len());
            return false;
        }
        let mut i: usize = 0;
        while i < self.outputs.len()
            invariant
                i <= self.outputs.len(),
                self.outputs.len() == other.outputs.len(),
                forall|j: int| 0 <= j < i ==> self@[j] == other@[j],
            decreases self.outputs.len() - i,
        {
            if !self.outputs[i].same(&other.outputs[i]) {
                assert(self@[i as int] != other@[i as int]);
                return false;
            }
            i = i + 1;
        }
        assert(self@ =~= other@);
        true
    }

    /// Whether a connected output waits to be mapped.
    #[must_use]
    pub fn should_map(&self) -> (r: bool)
        ensures
            r == needs_map(self@),
    {
        let mut i: usize = 0;
        while i < self.outputs.len()
            invariant
                i <= self.outputs.len(),
                forall|j: int| 0 <= j < i ==> !(self@[j].is_connected && !self@[j].mapped),
            decreases self.outputs.len() - i,
        {
            if self.outputs[i].is_connected && !self.outputs[i].mapped {
                assert(self@[i as int].is_connected && !self@[i as int].mapped);
                return true;
            }
            i = i + 1;
        }
        false
    }

    /// Whether an output is still mapped after its display has gone.
    #[must_use]
    pub fn should_unmap(&self) -> (r: bool)
        ensures
            r == needs_unmap(self@),
    {
        let mut i: usize = 0;
        while i < self.outputs.len()
            invariant
                i <= self.outputs.len(),
                forall|j: int| 0 <= j < i ==> !(!self@[j].is_connected && self@[j].mapped),
            decreases self.outputs.len() - i,
        {
            if !self.outputs[i].is_connected && self.outputs[i].mapped {
                assert(!self@[i as int].is_connected && self@[i as int].mapped);
                return true;
            }
            i = i + 1;
        }
        false
    }
}

} // verus!
