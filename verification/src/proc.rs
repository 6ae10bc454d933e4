use vstd::prelude::*;

use crate::assoc::{
    assoc_extend_fresh, assoc_extend_replace, assoc_keys_unique, assoc_map,
    lemma_assoc_contains, lemma_assoc_get, lemma_assoc_map_pointwise,
};
use crate::attrs::{parse_u8, s_parse_u8};
use crate::error::ParseError;
use crate::strutil::str_eq;
use crate::xml::XmlElement;

verus! {

/// The closed set of ARM core identifiers a processor element may carry.
#[derive(Debug, Clone, Copy, PartialEq, Eq, Structural)]
pub enum Core {
    CortexM0,
    CortexM0Plus,
    CortexM1,
    CortexM3,
    CortexM4,
    CortexM7,
    CortexM23,
    CortexM33,
    SC000,
    SC300,
    ARMV8MBL,
    ARMV8MML,
    CortexR4,
    CortexR5,
    CortexR7,
    CortexR8,
    CortexA5,
    CortexA7,
    CortexA8,
    CortexA9,
    CortexA15,
    CortexA17,
    CortexA32,
    CortexA35,
    CortexA53,
    CortexA57,
    CortexA72,
    CortexA73,
}

/// Which core identifier a `Dcore` attribute value denotes.
pub open spec fn s_core(s: Seq<char>) -> Option<Core> {
    if s == "Cortex-M0"@ {
        Some(Core::CortexM0)
    } else if s == "Cortex-M0+"@ {
        Some(Core::CortexM0Plus)
    } else if s == "Cortex-M1"@ {
        Some(Core::CortexM1)
    } else if s == "Cortex-M3"@ {
        Some(Core::CortexM3)
    } else if s == "Cortex-M4"@ {
        Some(Core::CortexM4)
    } else if s == "Cortex-M7"@ {
        Some(Core::CortexM7)
    } else if s == "Cortex-M23"@ {
        Some(Core::CortexM23)
    } else if s == "Cortex-M33"@ {
        Some(Core::CortexM33)
    } else if s == "SC000"@ {
        Some(Core::SC000)
    } else if s == "SC300"@ {
        Some(Core::SC300)
    } else if s == "ARMV8MBL"@ {
        Some(Core::ARMV8MBL)
    } else if s == "ARMV8MML"@ {
        Some(Core::ARMV8MML)
    } else if s == "Cortex-R4"@ {
        Some(Core::CortexR4)
    } else if s == "Cortex-R5"@ {
        Some(Core::CortexR5)
    } else if s == "Cortex-R7"@ {
        Some(Core::CortexR7)
    } else if s == "Cortex-R8"@ {
        Some(Core::CortexR8)
    } else if s == "Cortex-A5"@ {
        Some(Core::CortexA5)
    } else if s == "Cortex-A7"@ {
        Some(Core::CortexA7)
    } else if s == "Cortex-A8"@ {
        Some(Core::CortexA8)
    } else if s == "Cortex-A9"@ {
        Some(Core::CortexA9)
    } else if s == "Cortex-A15"@ {
        Some(Core::CortexA15)
    } else if s == "Cortex-A17"@ {
        Some(Core::CortexA17)
    } else if s == "Cortex-A32"@ {
        Some(Core::CortexA32)
    } else if s == "Cortex-A35"@ {
        Some(Core::CortexA35)
    } else if s == "Cortex-A53"@ {
        Some(Core::CortexA53)
    } else if s == "Cortex-A57"@ {
        Some(Core::CortexA57)
    } else if s == "Cortex-A72"@ {
        Some(Core::CortexA72)
    } else if s == "Cortex-A73"@ {
        Some(Core::CortexA73)
    } else {
        None
    }
}

impl Core {
    /// Parse a `Dcore` attribute value.
    pub fn from_str(s: &str) -> (r: Option<Core>)
        ensures
            r == s_core(s@),
    {
        if str_eq(s, "Cortex-M0") {
            Some(Core::CortexM0)
        } else if str_eq(s, "Cortex-M0+") {
            Some(Core::CortexM0Plus)
        } else if str_eq(s, "Cortex-M1") {
            Some(Core::CortexM1)
        } else if str_eq(s, "Cortex-M3") {
            Some(Core::CortexM3)
        } else if str_eq(s, "Cortex-M4") {
            Some(Core::CortexM4)
        } else if str_eq(s, "Cortex-M7") {
            Some(Core::CortexM7)
        } else if str_eq(s, "Cortex-M23") {
            Some(Core::CortexM23)
        } else if str_eq(s, "Cortex-M33") {
            Some(Core::CortexM33)
        } else if str_eq(s, "SC000") {
            Some(Core::SC000)
        } else if str_eq(s, "SC300") {
            Some(Core::SC300)
        } else if str_eq(s, "ARMV8MBL") {
            Some(Core::ARMV8MBL)
        } else if str_eq(s, "ARMV8MML") {
            Some(Core::ARMV8MML)
        } else if str_eq(s, "Cortex-R4") {
            Some(Core::CortexR4)
        } else if str_eq(s, "Cortex-R5") {
            Some(Core::CortexR5)
        } else if str_eq(s, "Cortex-R7") {
            Some(Core::CortexR7)
        } else if str_eq(s, "Cortex-R8") {
            Some(Core::CortexR8)
        } else if str_eq(s, "Cortex-A5") {
            Some(Core::CortexA5)
        } else if str_eq(s, "Cortex-A7") {
            Some(Core::CortexA7)
        } else if str_eq(s, "Cortex-A8") {
            Some(Core::CortexA8)
        } else if str_eq(s, "Cortex-A9") {
            Some(Core::CortexA9)
        } else if str_eq(s, "Cortex-A15") {
            Some(Core::CortexA15)
        } else if str_eq(s, "Cortex-A17") {
            Some(Core::CortexA17)
        } else if str_eq(s, "Cortex-A32") {
            Some(Core::CortexA32)
        } else if str_eq(s, "Cortex-A35") {
            Some(Core::CortexA35)
        } else if str_eq(s, "Cortex-A53") {
            Some(Core::CortexA53)
        } else if str_eq(s, "Cortex-A57") {
            Some(Core::CortexA57)
        } else if str_eq(s, "Cortex-A72") {
            Some(Core::CortexA72)
        } else if str_eq(s, "Cortex-A73") {
            Some(Core::CortexA73)
        } else {
            None
        }
    }
}

/// Floating-point hardware on a core.
#[derive(Debug, Clone, Copy, PartialEq, Eq, Structural)]
pub enum FPU {
    NotPresent,
    SinglePrecision,
    DoublePrecision,
}

/// Which floating-point unit a `Dfpu` attribute value denotes.
pub open spec fn s_fpu(s: Seq<char>) -> Option<FPU> {
    if s == "FPU"@ || s == "SP_FPU"@ || s == "1"@ {
        Some(FPU::SinglePrecision)
    } else if s == "None"@ || s == "0"@ {
        Some(FPU::NotPresent)
    } else if s == "DP_FPU"@ || s == "2"@ {
        Some(FPU::DoublePrecision)
    } else {
        None
    }
}

impl FPU {
    /// Parse a `Dfpu` attribute value.
    pub fn from_str(s: &str) -> (r: Option<FPU>)
        ensures
            r == s_fpu(s@),
    {
        if str_eq(s, "FPU") || str_eq(s, "SP_FPU") || str_eq(s, "1") {
            Some(FPU::SinglePrecision)
        } else if str_eq(s, "None") || str_eq(s, "0") {
            Some(FPU::NotPresent)
        } else if str_eq(s, "DP_FPU") || str_eq(s, "2") {
            Some(FPU::DoublePrecision)
        } else {
            None
        }
    }
}

/// Memory-protection hardware on a core.
#[derive(Debug, Clone, Copy, PartialEq, Eq, Structural)]
pub enum MPU {
    NotPresent,
    Present,
}

/// Which memory-protection answer a `Dmpu` attribute value denotes.
pub open spec fn s_mpu(s: Seq<char>) -> Option<MPU> {
    if s == "MPU"@ || s == "1"@ {
        Some(MPU::Present)
    } else if s == "None"@ || s == "0"@ {
        Some(MPU::NotPresent)
    } else {
        None
    }
}

impl MPU {
    /// Parse a `Dmpu` attribute value.
    pub fn from_str(s: &str) -> (r: Option<MPU>)
        ensures
            r == s_mpu(s@),
    {
        if str_eq(s, "MPU") || str_eq(s, "1") {
            Some(MPU::Present)
        } else if str_eq(s, "None") || str_eq(s, "0") {
            Some(MPU::NotPresent)
        } else {
            None
        }
    }
}

/// A fully-resolved processor descriptor.
#[derive(Debug, Clone, Copy, PartialEq, Eq, Structural)]
pub struct Processor {
    pub units: u8,
    pub core: Core,
    pub fpu: FPU,
    pub mpu: MPU,
}

/// A processor descriptor under construction: any field may still be unset.
#[derive(Debug, Clone, Copy, PartialEq, Eq, Structural)]
pub struct ProcessorBuilder {
    pub core: Option<Core>,
    pub units: Option<u8>,
    pub fpu: Option<FPU>,
    pub mpu: Option<MPU>,
}

/// The field-wise merge of a builder with its parent: fields the child set
/// win, the parent fills the holes.
pub open spec fn s_merge_pb(c: ProcessorBuilder, p: ProcessorBuilder) -> ProcessorBuilder {
    ProcessorBuilder {
        core: if c.core is Some {
            c.core
        } else {
            p.core
        },
        units: if c.units is Some {
            c.units
        } else {
            p.units
        },
        fpu: if c.fpu is Some {
            c.fpu
        } else {
            p.fpu
        },
        mpu: if c.mpu is Some {
            c.mpu
        } else {
            p.mpu
        },
    }
}

/// The processor a complete builder denotes: the core is taken as resolved,
/// the other fields fall back to one unit, no FPU and no MPU.
pub open spec fn s_build_pb(pb: ProcessorBuilder) -> Processor {
    Processor {
        units: match pb.units {
            Some(u) => u,
            None => 1,
        },
        core: pb.core.unwrap(),
        fpu: match pb.fpu {
            Some(f) => f,
            None => FPU::NotPresent,
        },
        mpu: match pb.mpu {
            Some(m) => m,
            None => MPU::NotPresent,
        },
    }
}

/// The builder a `processor` element denotes: each attribute is kept only
/// where it is present and parses.
pub open spec fn s_processor_builder(e: XmlElement) -> ProcessorBuilder {
    ProcessorBuilder {
        core: match e.spec_attr("Dcore"@) {
            Some(v) => s_core(v),
            None => None,
        },
        units: match e.spec_attr("Punits"@) {
            Some(v) => s_parse_u8(v),
            None => None,
        },
        fpu: match e.spec_attr("Dfpu"@) {
            Some(v) => s_fpu(v),
            None => None,
        },
        mpu: match e.spec_attr("Dmpu"@) {
            Some(v) => s_mpu(v),
            None => None,
        },
    }
}

impl ProcessorBuilder {
    /// Merge with a parent level's builder: fields this builder set win.
    pub fn merge(self, parent: &Self) -> (r: Self)
        ensures
            r == s_merge_pb(self, *parent),
    {
        ProcessorBuilder {
            core: match self.core {
                Some(c) => Some(c),
                None => parent.core,
            },
            units: match self.units {
                Some(u) => Some(u),
                None => parent.units,
            },
            fpu: match self.fpu {
                Some(f) => Some(f),
                None => parent.fpu,
            },
            mpu: match self.mpu {
                Some(m) => Some(m),
                None => parent.mpu,
            },
        }
    }

    /// Finalize: a builder without a resolved core is rejected.
    pub fn build(self) -> (r: Result<Processor, ParseError>)
        ensures
            self.core is Some ==> r == Ok::<Processor, ParseError>(s_build_pb(self)),
            self.core is None ==> (r matches Err(ParseError::MissingCore(n)) && n@ =~= Seq::<
                char,
            >::empty()),
    {
        match self.core {
            Some(core) => Ok(
                Processor {
                    core,
                    units: match self.units {
                        Some(u) => u,
                        None => 1,
                    },
                    fpu: match self.fpu {
                        Some(f) => f,
                        None => FPU::NotPresent,
                    },
                    mpu: match self.mpu {
                        Some(m) => m,
                        None => MPU::NotPresent,
                    },
                },
            ),
            None => Err(ParseError::MissingCore(String::new())),
        }
    }

    /// The builder a `processor` element denotes.
    pub fn from_elem(e: &XmlElement) -> (r: Self)
        ensures
            r == s_processor_builder(*e),
    {
        let core = match e.attr("Dcore") {
            Some(v) => Core::from_str(v.as_str()),
            None => None,
        };
        let units = match e.attr("Punits") {
            Some(v) => parse_u8(v.as_str()),
            None => None,
        };
        let fpu = match e.attr("Dfpu") {
            Some(v) => FPU::from_str(v.as_str()),
            None => None,
        };
        let mpu = match e.attr("Dmpu") {
            Some(v) => MPU::from_str(v.as_str()),
            None => None,
        };
        ProcessorBuilder { core, units, fpu, mpu }
    }
}

/// The processors of a finished device: one core shared by every unit, or a
/// named map of heterogeneous cores.
#[derive(Debug, Clone)]
pub enum Processors {
    Symmetric(Processor),
    Asymmetric(Vec<(String, Processor)>),
}

/// The mathematical shape of `Processors`.
pub enum ProcsModel {
    Symmetric(Processor),
    Asymmetric(Map<Seq<char>, Processor>),
}

impl View for Processors {
    type V = ProcsModel;

    open spec fn view(&self) -> ProcsModel {
        match self {
            Processors::Symmetric(p) => ProcsModel::Symmetric(*p),
            Processors::Asymmetric(v) => ProcsModel::Asymmetric(assoc_map(v@)),
        }
    }
}

impl Processors {
    /// An asymmetric map carries pairwise-distinct names and is never empty.
    pub open spec fn wf(self) -> bool {
        match self {
            Processors::Symmetric(_) => true,
            Processors::Asymmetric(v) => assoc_keys_unique(v@) && v@.len() > 0,
        }
    }
}

/// Processors under construction.
#[derive(Debug, Clone)]
pub enum ProcessorsBuilder {
    Symmetric(ProcessorBuilder),
    Asymmetric(Vec<(String, ProcessorBuilder)>),
}

/// The mathematical shape of `ProcessorsBuilder`.
pub enum ProcsBuilderModel {
    Symmetric(ProcessorBuilder),
    Asymmetric(Map<Seq<char>, ProcessorBuilder>),
}

impl View for ProcessorsBuilder {
    type V = ProcsBuilderModel;

    open spec fn view(&self) -> ProcsBuilderModel {
        match self {
            ProcessorsBuilder::Symmetric(p) => ProcsBuilderModel::Symmetric(*p),
            ProcessorsBuilder::Asymmetric(v) => ProcsBuilderModel::Asymmetric(assoc_map(v@)),
        }
    }
}

/// The builder a `processor` element denotes: a `Pname` attribute makes it
/// one named entry of an asymmetric map, its absence a symmetric core.
pub open spec fn s_processors_builder(e: XmlElement) -> ProcsBuilderModel {
    match e.spec_attr("Pname"@) {
        Some(nm) => ProcsBuilderModel::Asymmetric(
            Map::<Seq<char>, ProcessorBuilder>::empty().insert(nm, s_processor_builder(e)),
        ),
        None => ProcsBuilderModel::Symmetric(s_processor_builder(e)),
    }
}

/// The merge of processor builders across inheritance. Symmetric merges
/// field-wise; asymmetric merges name-wise with the child winning a name
/// both sides carry; a mixed pair does not merge at all.
pub open spec fn s_merge_procs(me: ProcsBuilderModel, parent: Option<ProcsBuilderModel>) -> Option<
    ProcsBuilderModel,
> {
    match me {
        ProcsBuilderModel::Symmetric(c) => match parent {
            None => Some(ProcsBuilderModel::Symmetric(c)),
            Some(ProcsBuilderModel::Symmetric(p)) => Some(
                ProcsBuilderModel::Symmetric(s_merge_pb(c, p)),
            ),
            Some(ProcsBuilderModel::Asymmetric(_)) => None,
        },
        ProcsBuilderModel::Asymmetric(cm) => match parent {
            None => Some(ProcsBuilderModel::Asymmetric(cm)),
            Some(ProcsBuilderModel::Symmetric(_)) => None,
            Some(ProcsBuilderModel::Asymmetric(pm)) => Some(
                ProcsBuilderModel::Asymmetric(pm.union_prefer_right(cm)),
            ),
        },
    }
}

/// What a level's processor slot absorbs when one more sibling `processor`
/// element appears: an asymmetric slot takes the names of an asymmetric
/// newcomer, the newcomer winning a name both carry; anything else leaves
/// the slot as it stands.
pub open spec fn s_merge_into(me: ProcsBuilderModel, other: ProcsBuilderModel) -> ProcsBuilderModel {
    match me {
        ProcsBuilderModel::Symmetric(_) => me,
        ProcsBuilderModel::Asymmetric(m) => match other {
            ProcsBuilderModel::Symmetric(_) => me,
            ProcsBuilderModel::Asymmetric(o) => ProcsBuilderModel::Asymmetric(
                m.union_prefer_right(o),
            ),
        },
    }
}

/// The processors a complete builder denotes: every named builder must have
/// a resolved core, and an asymmetric map must be non-empty.
pub open spec fn s_build_procs(m: ProcsBuilderModel) -> Option<ProcsModel> {
    match m {
        ProcsBuilderModel::Symmetric(pb) => if pb.core is Some {
            Some(ProcsModel::Symmetric(s_build_pb(pb)))
        } else {
            None
        },
        ProcsBuilderModel::Asymmetric(bm) => if bm.dom() =~= Set::<Seq<char>>::empty() {
            None
        } else if forall|k: Seq<char>| #[trigger] bm.contains_key(k) ==> bm[k].core is Some {
            Some(ProcsModel::Asymmetric(bm.map_values(|pb: ProcessorBuilder| s_build_pb(pb))))
        } else {
            None
        },
    }
}

/// The view of an optional builder.
pub open spec fn s_opt_procs(p: Option<ProcessorsBuilder>) -> Option<ProcsBuilderModel> {
    match p {
        Some(x) => Some(x@),
        None => None,
    }
}

/// Well-formedness of an optional builder.
pub open spec fn s_opt_procs_wf(p: Option<ProcessorsBuilder>) -> bool {
    match p {
        Some(x) => x.wf(),
        None => true,
    }
}

impl ProcessorsBuilder {
    /// An asymmetric map carries pairwise-distinct names and is never empty.
    pub open spec fn wf(self) -> bool {
        match self {
            ProcessorsBuilder::Symmetric(_) => true,
            ProcessorsBuilder::Asymmetric(v) => assoc_keys_unique(v@) && v@.len() > 0,
        }
    }

    /// Merge with the processor slot inherited from a parent level. A
    /// symmetric and an asymmetric description cannot describe one device:
    /// that pair is the merge conflict.
    pub fn merge(self, parent: &Option<ProcessorsBuilder>) -> (r: Result<
        ProcessorsBuilder,
        ParseError,
    >)
        requires
            self.wf(),
            s_opt_procs_wf(*parent),
        ensures
            r is Ok <==> s_merge_procs(self@, s_opt_procs(*parent)) is Some,
            r matches Ok(p) ==> p@ == s_merge_procs(self@, s_opt_procs(*parent)).unwrap()
                && p.wf(),
            r is Err ==> r matches Err(ParseError::ProcessorMergeConflict),
    {
        match self {
            ProcessorsBuilder::Symmetric(me) => match parent {
                Some(ProcessorsBuilder::Symmetric(p)) => Ok(
                    ProcessorsBuilder::Symmetric(me.merge(p)),
                ),
                Some(ProcessorsBuilder::Asymmetric(_)) => Err(ParseError::ProcessorMergeConflict),
                None => Ok(ProcessorsBuilder::Symmetric(me)),
            },
            ProcessorsBuilder::Asymmetric(mut mev) => match parent {
                Some(ProcessorsBuilder::Symmetric(_)) => Err(ParseError::ProcessorMergeConflict),
                Some(ProcessorsBuilder::Asymmetric(pv)) => {
                    assoc_extend_fresh(&mut mev, pv);
                    Ok(ProcessorsBuilder::Asymmetric(mev))
                },
                None => Ok(ProcessorsBuilder::Asymmetric(mev)),
            },
        }
    }

    /// Absorb one more sibling `processor` element at the same level.
    pub fn merge_into(&mut self, other: ProcessorsBuilder)
        requires
            old(self).wf(),
            other.wf(),
        ensures
            final(self).wf(),
            final(self)@ == s_merge_into(old(self)@, other@),
    {
        let mut taken = ProcessorsBuilder::Symmetric(
            ProcessorBuilder { core: None, units: None, fpu: None, mpu: None },
        );
        core::mem::swap(self, &mut taken);
        *self = taken.merged_with(other);
    }

    /// The slot after absorbing one more sibling `processor` element.
    fn merged_with(self, other: ProcessorsBuilder) -> (r: Self)
        requires
            self.wf(),
            other.wf(),
        ensures
            r.wf(),
            r@ == s_merge_into(self@, other@),
    {
        match self {
            ProcessorsBuilder::Symmetric(p) => ProcessorsBuilder::Symmetric(p),
            ProcessorsBuilder::Asymmetric(mut mev) => match other {
                ProcessorsBuilder::Symmetric(_) => ProcessorsBuilder::Asymmetric(mev),
                ProcessorsBuilder::Asymmetric(ov) => {
                    assoc_extend_replace(&mut mev, &ov);
                    ProcessorsBuilder::Asymmetric(mev)
                },
            },
        }
    }

    /// Finalize every named builder; any without a resolved core rejects
    /// the whole description.
    #[verifier::loop_isolation(false)]
    pub fn build(self) -> (r: Result<Processors, ParseError>)
        requires
            self.wf(),
        ensures
            r is Ok <==> s_build_procs(self@) is Some,
            r matches Ok(p) ==> p@ == s_build_procs(self@).unwrap() && p.wf(),
            r is Err ==> (r matches Err(ParseError::MissingCore(n)) && n@ =~= Seq::<
                char,
            >::empty()),
    {
        match self {
            ProcessorsBuilder::Symmetric(pb) => match pb.build() {
                Ok(p) => Ok(Processors::Symmetric(p)),
                Err(e) => Err(e),
            },
            ProcessorsBuilder::Asymmetric(v) => {
                let ghost bm = assoc_map(v@);
                let n = v.len();
                let mut out: Vec<(String, Processor)> = Vec::new();
                let mut i: usize = 0;
                while i < n
                    invariant
                        0 <= i <= n,
                        n == v@.len(),
                        bm == assoc_map(v@),
                        assoc_keys_unique(v@),
                        out@.len() == i,
                        forall|j: int|
                            0 <= j < i ==> (#[trigger] out@[j]).0@ == v@[j].0@ && out@[j].1
                                == s_build_pb(v@[j].1),
                        forall|j: int| 0 <= j < i ==> (#[trigger] v@[j]).1.core is Some,
                    decreases n - i,
                {
                    match v[i].1.build() {
                        Ok(p) => {
                            out.push((v[i].0.clone(), p));
                        },
                        Err(e) => {
                            proof {
                                lemma_assoc_get(v@, i as int);
                                assert(bm.contains_key(v@[i as int].0@));
                                assert(bm[v@[i as int].0@].core is None);
                            }
                            return Err(e);
                        },
                    }
                    i += 1;
                }
                proof {
                    assert forall|k: Seq<char>| #[trigger] bm.contains_key(k) implies bm[k].core
                        is Some by {
                        lemma_assoc_contains(v@, k);
                        let j = choose|j: int| 0 <= j < v@.len() && v@[j].0@ == k;
                        lemma_assoc_get(v@, j);
                    }
                    lemma_assoc_map_pointwise(
                        v@,
                        out@,
                        |pb: ProcessorBuilder| s_build_pb(pb),
                    );
                    assert forall|a: int, b: int| 0 <= a < b < out@.len() implies out@[a].0@
                        != out@[b].0@ by {
                        assert(v@[a].0@ != v@[b].0@);
                    }
                    assert(bm.contains_key(v@[0].0@)) by {
                        lemma_assoc_contains(v@, v@[0].0@);
                    }
                }
                Ok(Processors::Asymmetric(out))
            },
        }
    }

    /// An explicit copy whose contents the contracts track.
    pub fn duplicate(&self) -> (r: Self)
        ensures
            r@ == self@,
            self.wf() ==> r.wf(),
    {
        match self {
            ProcessorsBuilder::Symmetric(p) => ProcessorsBuilder::Symmetric(*p),
            ProcessorsBuilder::Asymmetric(v) => {
                let n = v.len();
                let mut w: Vec<(String, ProcessorBuilder)> = Vec::new();
                let mut i: usize = 0;
                while i < n
                    invariant
                        0 <= i <= n,
                        n == v.len(),
                        w@.len() == i,
                        forall|j: int| 0 <= j < i ==> w@[j] == v@[j],
                    decreases n - i,
                {
                    w.push((v[i].0.clone(), v[i].1));
                    i += 1;
                }
                proof {
                    assert(w@ =~= v@);
                }
                ProcessorsBuilder::Asymmetric(w)
            },
        }
    }

    /// The builder a `processor` element denotes.
    pub fn from_elem(e: &XmlElement) -> (r: Self)
        ensures
            r@ == s_processors_builder(*e),
            r.wf(),
    {
        let pb = ProcessorBuilder::from_elem(e);
        match e.attr("Pname") {
            Some(name) => {
                let mut v: Vec<(String, ProcessorBuilder)> = Vec::new();
                v.push((name.clone(), pb));
                proof {
                    assert(v@.drop_last() =~= Seq::<(String, ProcessorBuilder)>::empty());
                    assert(assoc_map(v@.drop_last()) =~= Map::<Seq<char>, ProcessorBuilder>::empty());
                    assert(assoc_map(v@) =~= Map::<Seq<char>, ProcessorBuilder>::empty().insert(
                        name@,
                        pb,
                    ));
                }
                ProcessorsBuilder::Asymmetric(v)
            },
            None => ProcessorsBuilder::Symmetric(pb),
        }
    }
}

} // verus!
