//! CPU feature probing and gating.
//!
//! Each required or optional feature is represented by a zero-sized token
//! that can only be produced by checking the probed feature bits, so holding
//! a token proves the feature was seen.

use vstd::prelude::*;

verus! {

/// The feature flags the boot sequence cares about, as plain booleans.
#[derive(Clone, Copy, Debug, PartialEq, Eq, Structural)]
pub struct FeatureBits {
    pub long_mode: bool,
    pub fpu: bool,
    pub tsc: bool,
    pub msr: bool,
    pub apic: bool,
    pub pat: bool,
    pub pge: bool,
    pub page1gb: bool,
    pub nxe: bool,
}

/// Feature flags reported by the basic CPUID feature leaf.
#[derive(Clone, Copy, Debug, PartialEq, Eq, Structural)]
pub struct BasicFeatureBits {
    pub fpu: bool,
    pub tsc: bool,
    pub msr: bool,
    pub apic: bool,
    pub pat: bool,
    pub pge: bool,
}

/// Feature flags reported by the extended CPUID leaf.
#[derive(Clone, Copy, Debug, PartialEq, Eq, Structural)]
pub struct ExtendedFeatureBits {
    pub long_mode: bool,
    pub page1gb: bool,
    pub nxe: bool,
}

/// Relies on raw_cpuid::CpuId::get_feature_info and the FeatureInfo
/// accessors has_fpu, has_tsc, has_msr, has_apic, has_pat and has_pge:
/// which basic features this machine's CPUID reports. The result depends on
/// the machine, so nothing is promised of it.
#[verifier::external_body]
fn probe_basic() -> Option<BasicFeatureBits> {
    match raw_cpuid::CpuId::new().get_feature_info() {
        None => None,
        Some(f) => Some(
            BasicFeatureBits {
                fpu: f.has_fpu(),
                tsc: f.has_tsc(),
                msr: f.has_msr(),
                apic: f.has_apic(),
                pat: f.has_pat(),
                pge: f.has_pge(),
            },
        ),
    }
}

/// Relies on raw_cpuid::CpuId::get_extended_processor_and_feature_identifiers
/// and its accessors has_64bit_mode, has_1gib_pages and has_execute_disable:
/// which extended features this machine's CPUID reports. The result depends
/// on the machine, so nothing is promised of it.
#[verifier::external_body]
fn probe_extended() -> Option<ExtendedFeatureBits> {
    match raw_cpuid::CpuId::new().get_extended_processor_and_feature_identifiers() {
        None => None,
        Some(e) => Some(
            ExtendedFeatureBits {
                long_mode: e.has_64bit_mode(),
                page1gb: e.has_1gib_pages(),
                nxe: e.has_execute_disable(),
            },
        ),
    }
}

impl FeatureBits {
    /// Combine the probed leaves; a leaf the CPU does not report counts as
    /// all-absent.
    pub fn gather(basic: Option<BasicFeatureBits>, extended: Option<ExtendedFeatureBits>) -> (r:
        FeatureBits)
        ensures
            r.fpu == (basic matches Some(b) && b.fpu),
            r.tsc == (basic matches Some(b) && b.tsc),
            r.msr == (basic matches Some(b) && b.msr),
            r.apic == (basic matches Some(b) && b.apic),
            r.pat == (basic matches Some(b) && b.pat),
            r.pge == (basic matches Some(b) && b.pge),
            r.long_mode == (extended matches Some(e) && e.long_mode),
            r.page1gb == (extended matches Some(e) && e.page1gb),
            r.nxe == (extended matches Some(e) && e.nxe),
    {
        let mut r = FeatureBits {
            long_mode: false,
            fpu: false,
            tsc: false,
            msr: false,
            apic: false,
            pat: false,
            pge: false,
            page1gb: false,
            nxe: false,
        };
        if let Some(b) = basic {
            r.fpu = b.fpu;
            r.tsc = b.tsc;
            r.msr = b.msr;
            r.apic = b.apic;
            r.pat = b.pat;
            r.pge = b.pge;
        }
        if let Some(e) = extended {
            r.long_mode = e.long_mode;
            r.page1gb = e.page1gb;
            r.nxe = e.nxe;
        }
        r
    }

    /// Ask the CPU which features it has.
    pub fn probe() -> FeatureBits {
        FeatureBits::gather(probe_basic(), probe_extended())
    }
}

/// Support for 64-bit long mode.
#[derive(Debug, Clone, Copy)]
pub struct LongMode {
    _marker: (),
}

impl LongMode {
    pub fn check(bits: &FeatureBits) -> (r: Option<LongMode>)
        ensures
            r is Some <==> bits.long_mode,
    {
        if bits.long_mode {
            Some(LongMode { _marker: () })
        } else {
            None
        }
    }
}

/// Presence of a floating point unit.
#[derive(Debug, Clone, Copy)]
pub struct FPU {
    _marker: (),
}

impl FPU {
    pub fn check(bits: &FeatureBits) -> (r: Option<FPU>)
        ensures
            r is Some <==> bits.fpu,
    {
        if bits.fpu {
            Some(FPU { _marker: () })
        } else {
            None
        }
    }
}

/// Support for the time stamp counter.
#[derive(Debug, Clone, Copy)]
pub struct TSC {
    _marker: (),
}

impl TSC {
    pub fn check(bits: &FeatureBits) -> (r: Option<TSC>)
        ensures
            r is Some <==> bits.tsc,
    {
        if bits.tsc {
            Some(TSC { _marker: () })
        } else {
            None
        }
    }
}

/// Support for model-specific registers.
#[derive(Debug, Clone, Copy)]
pub struct MSR {
    _marker: (),
}

impl MSR {
    pub fn check(bits: &FeatureBits) -> (r: Option<MSR>)
        ensures
            r is Some <==> bits.msr,
    {
        if bits.msr {
            Some(MSR { _marker: () })
        } else {
            None
        }
    }
}

/// An on-chip APIC.
#[derive(Debug, Clone, Copy)]
pub struct APIC {
    _marker: (),
}

impl APIC {
    pub fn check(bits: &FeatureBits) -> (r: Option<APIC>)
        ensures
            r is Some <==> bits.apic,
    {
        if bits.apic {
            Some(APIC { _marker: () })
        } else {
            None
        }
    }
}

/// Support for the page attribute table.
#[derive(Debug, Clone, Copy)]
pub struct PAT {
    _marker: (),
}

impl PAT {
    pub fn check(bits: &FeatureBits) -> (r: Option<PAT>)
        ensures
            r is Some <==> bits.pat,
    {
        if bits.pat {
            Some(PAT { _marker: () })
        } else {
            None
        }
    }
}

/// Support for 1 GiB pages.
#[derive(Debug, Clone, Copy)]
pub struct Page1GB {
    _marker: (),
}

impl Page1GB {
    pub fn check(bits: &FeatureBits) -> (r: Option<Page1GB>)
        ensures
            r is Some <==> bits.page1gb,
    {
        if bits.page1gb {
            Some(Page1GB { _marker: () })
        } else {
            None
        }
    }
}

/// Support for global pages.
#[derive(Debug, Clone, Copy)]
pub struct PGE {
    _marker: (),
}

impl PGE {
    pub fn check(bits: &FeatureBits) -> (r: Option<PGE>)
        ensures
            r is Some <==> bits.pge,
    {
        if bits.pge {
            Some(PGE { _marker: () })
        } else {
            None
        }
    }
}

/// Support for the no-execute page bit.
#[derive(Debug, Clone, Copy)]
pub struct NXE {
    _marker: (),
}

impl NXE {
    pub fn check(bits: &FeatureBits) -> (r: Option<NXE>)
        ensures
            r is Some <==> bits.nxe,
    {
        if bits.nxe {
            Some(NXE { _marker: () })
        } else {
            None
        }
    }
}

/// The first missing required feature, in checking order.
#[derive(Debug, Clone, Copy, PartialEq, Eq, Structural)]
pub enum Missing {
    LongMode,
    FPU,
    TSC,
    MSR,
    APIC,
    PAT,
}

/// Witnesses for every feature the kernel cannot run without.
#[derive(Debug, Clone, Copy)]
pub struct Required {
    pub long: LongMode,
    pub fpu: FPU,
    pub tsc: TSC,
    pub msr: MSR,
    pub apic: APIC,
    pub pat: PAT,
}

/// Whether the probed bits carry every required feature.
pub open spec fn required_present(bits: FeatureBits) -> bool {
    bits.long_mode && bits.fpu && bits.tsc && bits.msr && bits.apic && bits.pat
}

impl Required {
    /// Judge probed feature bits: either every required feature is present,
    /// or the first missing one (in the order long mode, FPU, TSC, MSR,
    /// APIC, PAT) is named.
    pub fn evaluate(bits: &FeatureBits) -> (r: Result<Required, Missing>)
        ensures
            r is Ok <==> required_present(*bits),
            !bits.long_mode ==> r == Err::<Required, Missing>(Missing::LongMode),
            bits.long_mode && !bits.fpu ==> r == Err::<Required, Missing>(Missing::FPU),
            bits.long_mode && bits.fpu && !bits.tsc ==> r == Err::<Required, Missing>(
                Missing::TSC,
            ),
            bits.long_mode && bits.fpu && bits.tsc && !bits.msr ==> r == Err::<Required, Missing>(
                Missing::MSR,
            ),
            bits.long_mode && bits.fpu && bits.tsc && bits.msr && !bits.apic ==> r == Err::<
                Required,
                Missing,
            >(Missing::APIC),
            bits.long_mode && bits.fpu && bits.tsc && bits.msr && bits.apic && !bits.pat ==> r
                == Err::<Required, Missing>(Missing::PAT),
    {
        let long = match LongMode::check(bits) {
            Some(t) => t,
            None => { return Err(Missing::LongMode) },
        };
        let fpu = match FPU::check(bits) {
            Some(t) => t,
            None => { return Err(Missing::FPU) },
        };
        let tsc = match TSC::check(bits) {
            Some(t) => t,
            None => { return Err(Missing::TSC) },
        };
        let msr = match MSR::check(bits) {
            Some(t) => t,
            None => { return Err(Missing::MSR) },
        };
        let apic = match APIC::check(bits) {
            Some(t) => t,
            None => { return Err(Missing::APIC) },
        };
        let pat = match PAT::check(bits) {
            Some(t) => t,
            None => { return Err(Missing::PAT) },
        };
        Ok(Required { long, fpu, tsc, msr, apic, pat })
    }

    /// Probe the CPU and judge what it reports.
    pub fn check() -> Result<Required, Missing> {
        let bits = FeatureBits::probe();
        Required::evaluate(&bits)
    }

    pub fn get_pat(&self) -> (r: PAT)
        ensures
            r == self.pat,
    {
        self.pat
    }

    pub fn get_msr(&self) -> (r: MSR)
        ensures
            r == self.msr,
    {
        self.msr
    }
}

/// Everything the probe learned: the required witnesses plus the optional
/// capabilities that were found.
#[derive(Debug, Clone, Copy)]
pub struct Features {
    pub required: Required,
    pub page1gb: Option<Page1GB>,
    pub pge: Option<PGE>,
    pub nxe: Option<NXE>,
}

impl Features {
    /// Judge probed feature bits: required features decide success exactly
    /// as `Required::evaluate`, and each optional capability is carried iff
    /// its bit was set.
    pub fn evaluate(bits: &FeatureBits) -> (r: Result<Features, Missing>)
        ensures
            r is Ok <==> required_present(*bits),
            r matches Err(m) ==> Required::evaluate_err(*bits) == Some(m),
            r matches Ok(f) ==> {
                &&& f.page1gb is Some <==> bits.page1gb
                &&& f.pge is Some <==> bits.pge
                &&& f.nxe is Some <==> bits.nxe
            },
    {
        let required = match Required::evaluate(bits) {
            Ok(r) => r,
            Err(m) => { return Err(m) },
        };
        Ok(
            Features {
                required,
                page1gb: Page1GB::check(bits),
                pge: PGE::check(bits),
                nxe: NXE::check(bits),
            },
        )
    }

    /// Probe the CPU and judge what it reports.
    pub fn check() -> Result<Features, Missing> {
        let bits = FeatureBits::probe();
        Features::evaluate(&bits)
    }

    pub fn required(&self) -> (r: Required)
        ensures
            r == self.required,
    {
        self.required
    }

    pub fn page1gb(&self) -> (r: Option<Page1GB>)
        ensures
            r == self.page1gb,
    {
        self.page1gb
    }

    pub fn get_page1gb(&self) -> (r: Option<Page1GB>)
        ensures
            r == self.page1gb,
    {
        self.page1gb
    }

    pub fn get_pge(&self) -> (r: Option<PGE>)
        ensures
            r == self.pge,
    {
        self.pge
    }

    pub fn get_nxe(&self) -> (r: Option<NXE>)
        ensures
            r == self.nxe,
    {
        self.nxe
    }

    pub fn get_required(&self) -> (r: Required)
        ensures
            r == self.required,
    {
        self.required
    }
}

impl Required {
    /// The error `evaluate` gives for these bits, when it gives one.
    pub open spec fn evaluate_err(bits: FeatureBits) -> Option<Missing> {
        if !bits.long_mode {
            Some(Missing::LongMode)
        } else if !bits.fpu {
            Some(Missing::FPU)
        } else if !bits.tsc {
            Some(Missing::TSC)
        } else if !bits.msr {
            Some(Missing::MSR)
        } else if !bits.apic {
            Some(Missing::APIC)
        } else if !bits.pat {
            Some(Missing::PAT)
        } else {
            None
        }
    }
}

} // verus!
