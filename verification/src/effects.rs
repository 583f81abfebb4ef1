//! Effects: the slots of an effect chain with their bypass flags, and the
//! selectors of a distortion algorithm and a biquad filter topology, with
//! the processor names they give.
use vstd::prelude::*;

verus! {

/// Distortion algorithm.
#[derive(Debug, Clone, Copy, PartialEq, Eq, Structural)]
pub enum DistortionType {
    /// Soft clipping via `tanh`.
    SoftClip,
    /// Hard clipping via `clamp`.
    HardClip,
    /// Waveshaping transfer function.
    Waveshape,
    /// Bit-depth reduction.
    Bitcrush,
}

impl DistortionType {
    /// Name of a distortion processor running this algorithm.
    pub fn processor_name(&self) -> (name: &'static str)
        ensures
            name@ == match *self {
                DistortionType::SoftClip => "Distortion (Soft Clip)"@,
                DistortionType::HardClip => "Distortion (Hard Clip)"@,
                DistortionType::Waveshape => "Distortion (Waveshape)"@,
                DistortionType::Bitcrush => "Distortion (Bitcrush)"@,
            },
    {
        match self {
            DistortionType::SoftClip => "Distortion (Soft Clip)",
            DistortionType::HardClip => "Distortion (Hard Clip)",
            DistortionType::Waveshape => "Distortion (Waveshape)",
            DistortionType::Bitcrush => "Distortion (Bitcrush)",
        }
    }
}

/// Filter topology.
#[derive(Debug, Clone, Copy, PartialEq, Eq, Structural)]
pub enum FilterType {
    LowPass,
    HighPass,
    BandPass,
    Notch,
    Peak,
    LowShelf,
    HighShelf,
}

impl FilterType {
    /// Name of a biquad filter processor with this topology.
    pub fn processor_name(&self) -> (name: &'static str)
        ensures
            name@ == match *self {
                FilterType::LowPass => "Biquad LP Filter"@,
                FilterType::HighPass => "Biquad HP Filter"@,
                FilterType::BandPass => "Biquad BP Filter"@,
                FilterType::Notch => "Biquad Notch Filter"@,
                FilterType::Peak => "Biquad Peak Filter"@,
                FilterType::LowShelf => "Biquad Low Shelf Filter"@,
                FilterType::HighShelf => "Biquad High Shelf Filter"@,
            },
    {
        match self {
            FilterType::LowPass => "Biquad LP Filter",
            FilterType::HighPass => "Biquad HP Filter",
            FilterType::BandPass => "Biquad BP Filter",
            FilterType::Notch => "Biquad Notch Filter",
            FilterType::Peak => "Biquad Peak Filter",
            FilterType::LowShelf => "Biquad Low Shelf Filter",
            FilterType::HighShelf => "Biquad High Shelf Filter",
        }
    }
}

} // verus!

verus! {

// ---------------------------------------------------------------------------
// Effect chain
// ---------------------------------------------------------------------------

/// A serial chain of effects with per-slot bypass: the processors in order,
/// each with its bypass flag. What a processor does to audio is its own
/// floating-point work; the chain keeps the slots.
pub struct EffectChain<P> {
    processors: Vec<P>,
    bypassed: Vec<bool>,
}

impl<P> EffectChain<P> {
    /// The processors, in chain order.
    pub closed spec fn spec_processors(&self) -> Seq<P> {
        self.processors@
    }

    /// The bypass flag of each slot, in chain order.
    pub closed spec fn spec_bypassed(&self) -> Seq<bool> {
        self.bypassed@
    }

    /// Every slot has one processor and one bypass flag.
    pub open spec fn wf(&self) -> bool {
        self.spec_processors().len() == self.spec_bypassed().len()
    }

    /// An empty chain.
    pub fn new() -> (c: Self)
        ensures
            c.wf(),
            c.spec_processors() == Seq::<P>::empty(),
            c.spec_bypassed() == Seq::<bool>::empty(),
    {
        EffectChain { processors: Vec::new(), bypassed: Vec::new() }
    }

    /// Number of effects in the chain.
    pub fn len(&self) -> (n: usize)
        requires
            self.wf(),
        ensures
            n == self.spec_processors().len(),
    {
        self.processors.len()
    }

    /// Whether the chain has no effects.
    pub fn is_empty(&self) -> (b: bool)
        requires
            self.wf(),
        ensures
            b == (self.spec_processors().len() == 0),
    {
        self.processors.len() == 0
    }

    /// Append an effect, not bypassed, to the end of the chain.
    pub fn push(&mut self, effect: P)
        requires
            old(self).wf(),
        ensures
            final(self).wf(),
            final(self).spec_processors() == old(self).spec_processors().push(effect),
            final(self).spec_bypassed() == old(self).spec_bypassed().push(false),
    {
        self.processors.push(effect);
        self.bypassed.push(false);
    }

    /// Remove and return the effect at `index`, or `None` if out of range;
    /// the other slots keep their order and bypass flags.
    pub fn remove(&mut self, index: usize) -> (r: Option<P>)
        requires
            old(self).wf(),
        ensures
            final(self).wf(),
            index < old(self).spec_processors().len() ==> {
                &&& r == Some(old(self).spec_processors()[index as int])
                &&& final(self).spec_processors() == old(self).spec_processors().remove(
                    index as int,
                )
                &&& final(self).spec_bypassed() == old(self).spec_bypassed().remove(index as int)
            },
            index >= old(self).spec_processors().len() ==> {
                &&& r is None
                &&& final(self).spec_processors() == old(self).spec_processors()
                &&& final(self).spec_bypassed() == old(self).spec_bypassed()
            },
    {
        if index < self.processors.len() {
            self.bypassed.remove(index);
            Some(self.processors.remove(index))
        } else {
            None
        }
    }

    /// Set the bypass flag of the effect at `index`; nothing changes if the
    /// index is out of range.
    pub fn set_bypass(&mut self, index: usize, bypassed: bool)
        requires
            old(self).wf(),
        ensures
            final(self).wf(),
            final(self).spec_processors() == old(self).spec_processors(),
            final(self).spec_bypassed() == if index < old(self).spec_bypassed().len() {
                old(self).spec_bypassed().update(index as int, bypassed)
            } else {
                old(self).spec_bypassed()
            },
    {
        if index < self.bypassed.len() {
            self.bypassed.set(index, bypassed);
        }
    }

    /// Whether the effect at `index` is bypassed, if there is one.
    pub fn is_bypassed(&self, index: usize) -> (b: Option<bool>)
        requires
            self.wf(),
        ensures
            b == if index < self.spec_bypassed().len() {
                Some(self.spec_bypassed()[index as int])
            } else {
                None
            },
    {
        if index < self.bypassed.len() {
            Some(self.bypassed[index])
        } else {
            None
        }
    }

    /// The processor at `index`, for changing its parameters in place:
    /// every bypass flag and every other processor stay as they are.
    pub fn processor_mut(&mut self, index: usize) -> (p: &mut P)
        requires
            old(self).wf(),
            index < old(self).spec_processors().len(),
        ensures
            *p == old(self).spec_processors()[index as int],
            final(self).spec_processors() == old(self).spec_processors().update(
                index as int,
                *final(p),
            ),
            final(self).spec_bypassed() == old(self).spec_bypassed(),
    {
        &mut self.processors[index]
    }
}

} // verus!
