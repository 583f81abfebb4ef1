use kazoo_core::effects::{DistortionType, EffectChain, FilterType};

#[test]
fn distortion_processor_names() {
    assert_eq!(DistortionType::SoftClip.processor_name(), "Distortion (Soft Clip)");
    assert_eq!(DistortionType::Bitcrush.processor_name(), "Distortion (Bitcrush)");
}

#[test]
fn filter_processor_names() {
    assert_eq!(FilterType::LowPass.processor_name(), "Biquad LP Filter");
    assert_eq!(FilterType::HighShelf.processor_name(), "Biquad High Shelf Filter");
}

/// Trivial gain processor for testing the chain.
#[derive(Debug)]
struct TestGain {
    gain: f32,
}

impl TestGain {
    fn new(gain: f32) -> Self {
        Self { gain }
    }

    fn name(&self) -> &str {
        "TestGain"
    }
}

#[test]
fn chain_remove() {
    let mut chain = EffectChain::new();
    chain.push(TestGain::new(0.5));
    chain.push(TestGain::new(3.0));
    assert_eq!(chain.len(), 2);

    let removed = chain.remove(0);
    assert!(removed.is_some());
    assert_eq!(chain.len(), 1);
    assert_eq!(removed.unwrap().name(), "TestGain");

    // Out of range returns None.
    assert!(chain.remove(10).is_none());
}

#[test]
fn chain_len_and_is_empty() {
    let mut chain = EffectChain::new();
    assert!(chain.is_empty());
    assert_eq!(chain.len(), 0);

    chain.push(TestGain::new(1.0));
    assert!(!chain.is_empty());
    assert_eq!(chain.len(), 1);
}

#[test]
fn chain_bypass_flags_follow_their_slots() {
    let mut chain = EffectChain::new();
    chain.push(TestGain::new(0.0));
    chain.push(TestGain::new(2.0));
    chain.push(TestGain::new(3.0));
    chain.set_bypass(1, true);
    chain.set_bypass(9, true);
    assert_eq!(chain.is_bypassed(1), Some(true));
    assert_eq!(chain.is_bypassed(9), None);
    // Changing a parameter in place keeps every bypass flag.
    chain.processor_mut(1).gain = 4.0;
    chain.processor_mut(2).gain = 5.0;
    assert_eq!(chain.is_bypassed(0), Some(false));
    assert_eq!(chain.is_bypassed(1), Some(true));
    assert_eq!(chain.is_bypassed(2), Some(false));
    // Removing a slot moves the later flags with their effects.
    chain.remove(0);
    assert_eq!(chain.is_bypassed(0), Some(true));
    assert_eq!(chain.processor_mut(0).gain, 4.0);
    assert_eq!(chain.is_bypassed(1), Some(false));
}
