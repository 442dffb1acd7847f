//! The nodes of the RF front-end graph.

use vstd::prelude::*;
use vstd::string::StringExecFns;
use crate::components::{
    AmplifierModel, AttenuatorModel, BalunModel, CombinerModel, DirectionalCouplerModel,
    FilterModel, FilterType, MixerModel, PhaseShifterModel, SplitterModel, COUPLER_COUPLED_PORT,
};
use crate::iq_file::IqFileLoader;
use crate::signal::SignalGenerator;
use crate::text::{decimal, numeral};
use crate::touchstone::S2pModel;
use crate::units::Micro;

verus! {

/// Pin types for the node graph: what flows between nodes.
#[derive(Clone, Copy, Debug, PartialEq, Eq, Structural)]
pub enum PinType {
    /// RF signal.
    RfSignal,
}

/// Where a source node takes its signal from.
#[derive(Clone, Copy, Debug, PartialEq, Eq, Structural)]
pub enum SourceType {
    GlobalGenerator,
    LocalGenerator,
    IqFile,
}

/// A node in the RF front end signal chain.
#[derive(Clone, Debug)]
pub enum RfNode {
    SignalSource(SignalSourceNode),
    Balun(BalunNode),
    Filter(FilterNode),
    Amplifier(AmplifierNode),
    Attenuator(AttenuatorNode),
    Splitter(SplitterNode),
    Combiner(CombinerNode),
    Mixer(MixerNode),
    PhaseShifter(PhaseShifterNode),
    DirectionalCoupler(DirectionalCouplerNode),
    S2p(S2pNode),
    AdcInput(AdcInputNode),
}

#[derive(Clone, Debug)]
pub struct SignalSourceNode {
    pub source_type: SourceType,
    pub generator: SignalGenerator,
    pub file_loader: IqFileLoader,
}

impl Default for SignalSourceNode {
    fn default() -> (node: Self)
        ensures
            node.source_type == SourceType::GlobalGenerator,
            node.generator.tones@ == seq![crate::signal::fresh_tone()],
            node.generator.noise_enabled,
            node.generator.noise_floor_dbfs == -80_000_000,
            node.file_loader.path is None,
            !node.file_loader.cache_is_current(),
    {
        SignalSourceNode {
            source_type: SourceType::GlobalGenerator,
            generator: SignalGenerator::default(),
            file_loader: IqFileLoader::default(),
        }
    }
}

#[derive(Clone, Debug)]
pub struct BalunNode {
    pub model: BalunModel,
}

#[derive(Clone, Debug)]
pub struct FilterNode {
    pub model: FilterModel,
}

#[derive(Clone, Debug)]
pub struct AmplifierNode {
    pub model: AmplifierModel,
}

#[derive(Clone, Debug)]
pub struct AttenuatorNode {
    pub model: AttenuatorModel,
}

#[derive(Clone, Debug)]
pub struct SplitterNode {
    pub model: SplitterModel,
}

#[derive(Clone, Debug)]
pub struct CombinerNode {
    pub model: CombinerModel,
}

#[derive(Clone, Debug)]
pub struct MixerNode {
    pub model: MixerModel,
}

#[derive(Clone, Debug)]
pub struct PhaseShifterNode {
    pub model: PhaseShifterModel,
}

#[derive(Clone, Debug)]
pub struct DirectionalCouplerNode {
    pub model: DirectionalCouplerModel,
}

#[derive(Clone, Debug)]
pub struct S2pNode {
    pub model: S2pModel,
}

/// The input of one converter block.
#[derive(Clone, Copy, Debug, PartialEq, Eq, Structural)]
pub struct AdcInputNode {
    /// Which ADC tile this input feeds (0-3).
    pub tile_index: usize,
    /// Which block within the tile (0-1).
    pub block_index: usize,
}

impl Default for AdcInputNode {
    fn default() -> (node: Self)
        ensures
            node.tile_index == 0,
            node.block_index == 0,
    {
        AdcInputNode { tile_index: 0, block_index: 0 }
    }
}

/// Physical temperature and enable flag for the chain's thermal noise.
#[derive(Clone, Copy, Debug, PartialEq, Eq, Structural)]
pub struct ChainEnvironment {
    /// Whether components contribute their own thermal noise.
    pub thermal_noise: bool,
    /// Physical temperature of the chain in kelvin.
    pub temperature_k: Micro,
    /// Frequency at which cascaded gain, noise figure and OIP3 are reported.
    pub analysis_freq_mhz: Micro,
}

impl Default for ChainEnvironment {
    fn default() -> (env: Self)
        ensures
            env.thermal_noise,
            env.temperature_k == 290_000_000,
            env.analysis_freq_mhz == 1_000_000_000,
    {
        ChainEnvironment {
            thermal_noise: true,
            temperature_k: 290_000_000,
            analysis_freq_mhz: 1_000_000_000,
        }
    }
}

impl RfNode {
    pub open spec fn title_text(&self) -> Seq<char> {
        match self {
            RfNode::SignalSource(_) => "Signal Source"@,
            RfNode::Balun(_) => "Balun"@,
            RfNode::Filter(f) => match f.model.filter_type {
                FilterType::LowPass => "Low-Pass Filter"@,
                FilterType::HighPass => "High-Pass Filter"@,
                FilterType::BandPass => "Band-Pass Filter"@,
            },
            RfNode::Amplifier(_) => "Amplifier"@,
            RfNode::Attenuator(_) => "Attenuator"@,
            RfNode::Splitter(_) => "Splitter"@,
            RfNode::Combiner(_) => "Combiner"@,
            RfNode::Mixer(_) => "Mixer"@,
            RfNode::PhaseShifter(_) => "Phase Shifter"@,
            RfNode::DirectionalCoupler(_) => "Directional Coupler"@,
            RfNode::S2p(s) => s.model.name@,
            RfNode::AdcInput(_) => "ADC Input"@,
        }
    }

    /// Human-readable name for display in the node header.
    pub fn title(&self) -> (text: &str)
        ensures
            text@ == self.title_text(),
    {
        match self {
            RfNode::SignalSource(_) => "Signal Source",
            RfNode::Balun(_) => "Balun",
            RfNode::Filter(f) => match f.model.filter_type {
                FilterType::LowPass => "Low-Pass Filter",
                FilterType::HighPass => "High-Pass Filter",
                FilterType::BandPass => "Band-Pass Filter",
            },
            RfNode::Amplifier(_) => "Amplifier",
            RfNode::Attenuator(_) => "Attenuator",
            RfNode::Splitter(_) => "Splitter",
            RfNode::Combiner(_) => "Combiner",
            RfNode::Mixer(_) => "Mixer",
            RfNode::PhaseShifter(_) => "Phase Shifter",
            RfNode::DirectionalCoupler(_) => "Directional Coupler",
            RfNode::S2p(s) => s.model.name.as_str(),
            RfNode::AdcInput(_) => "ADC Input",
        }
    }

    /// A source has no input, a combiner as many as it is built with, anything else one.
    pub open spec fn inputs(&self) -> nat {
        match self {
            RfNode::SignalSource(_) => 0,
            RfNode::Combiner(c) => c.model.num_inputs as nat,
            _ => 1,
        }
    }

    /// Number of input pins.
    pub fn num_inputs(&self) -> (n: usize)
        ensures
            n == self.inputs(),
    {
        match self {
            RfNode::SignalSource(_) => 0,
            RfNode::Combiner(c) => c.model.num_inputs as usize,
            _ => 1,
        }
    }

    /// A converter input has no output, a splitter as many as it is built with, a coupler its
    /// main line and its coupled arm, anything else one.
    pub open spec fn outputs(&self) -> nat {
        match self {
            RfNode::AdcInput(_) => 0,
            RfNode::Splitter(s) => s.model.num_outputs as nat,
            RfNode::DirectionalCoupler(_) => 2,
            _ => 1,
        }
    }

    /// Number of output pins.
    pub fn num_outputs(&self) -> (n: usize)
        ensures
            n == self.outputs(),
    {
        match self {
            RfNode::AdcInput(_) => 0,
            RfNode::Splitter(s) => s.model.num_outputs as usize,
            RfNode::DirectionalCoupler(_) => 2,
            _ => 1,
        }
    }

    /// Whether there is component physics behind this node: everything between a source and
    /// the converter.
    pub fn has_component(&self) -> (yes: bool)
        ensures
            yes == !(self is SignalSource || self is AdcInput),
    {
        !matches!(self, RfNode::SignalSource(_) | RfNode::AdcInput(_))
    }

    pub open spec fn output_text(&self, port: usize) -> Seq<char> {
        match self {
            RfNode::Splitter(_) => "Out "@ + numeral(port as nat),
            RfNode::DirectionalCoupler(_) => if port == COUPLER_COUPLED_PORT {
                "Coupled"@
            } else {
                "Main"@
            },
            _ => "RF Out"@,
        }
    }

    /// Label for an output pin.
    pub fn output_label(&self, port: usize) -> (text: String)
        ensures
            text@ == self.output_text(port),
    {
        match self {
            RfNode::Splitter(_) => "Out ".to_owned().concat(decimal(port as u64).as_str()),
            RfNode::DirectionalCoupler(_) => {
                if port == COUPLER_COUPLED_PORT {
                    "Coupled".to_owned()
                } else {
                    "Main".to_owned()
                }
            },
            _ => "RF Out".to_owned(),
        }
    }
}

/// Pins by the kind of a node. Only a source has no input and only a converter input no output, so
/// a signal starts at the one and ends at the other; a combiner has as many inputs and a splitter
/// as many outputs as they are made for, a coupler has two outputs, and everything else one of each.
pub proof fn pins_follow_the_kind(node: RfNode)
    ensures
        node is SignalSource ==> node.inputs() == 0 && node.outputs() == 1,
        node is AdcInput ==> node.inputs() == 1 && node.outputs() == 0,
        node matches RfNode::Combiner(c) ==> node.inputs() == c.model.num_inputs && node.outputs()
            == 1,
        node matches RfNode::Splitter(s) ==> node.inputs() == 1 && node.outputs()
            == s.model.num_outputs,
        node is DirectionalCoupler ==> node.inputs() == 1 && node.outputs() == 2,
        !(node is SignalSource || node is AdcInput || node is Combiner || node is Splitter
            || node is DirectionalCoupler) ==> node.inputs() == 1 && node.outputs() == 1,
{
}

} // verus!
