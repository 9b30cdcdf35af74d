//! The immutable settings snapshot that configures a session.
//!
//! Loading and saving the configuration file is a collaborator's concern; the
//! library only defines the snapshot itself, its defaults, and where the file
//! lives relative to the platform's configuration directory.

use vstd::prelude::*;

verus! {

/// How aggressively the voice-activity engine classifies speech.
#[derive(Debug, Clone, Copy, PartialEq, Eq, Structural)]
pub enum VadMode {
    Quality,
    LowBitrate,
    Aggressive,
    VeryAggressive,
}

/// What to do when a trigger phrase matches: type the substituted template,
/// or launch it as a program with arguments.
#[derive(Debug, Clone)]
pub enum CommandAction {
    Type(String),
    Exec(String),
}

/// Immutable configuration snapshot, shared read-only for a session's
/// lifetime.
///
/// `vad_energy_threshold` is a mean squared sample amplitude on the 16-bit
/// PCM scale, where full scale is `32767 * 32767`; a chunk whose mean squared
/// amplitude exceeds it counts as voice under the energy fallback.
/// `commands` maps trigger phrases to actions; entries keep their insertion
/// order and the first matching trigger wins.
#[derive(Debug, Clone)]
pub struct Settings {
    pub model_path: Option<String>,
    pub enable_denoise: bool,
    pub enable_vad: bool,
    pub vad_mode: VadMode,
    pub vad_energy_threshold: u32,
    pub silence_threshold_ms: u32,
    pub enable_keyboard_output: bool,
    pub keyboard_output_delay_ms: u32,
    pub commands: Vec<(String, CommandAction)>,
}

/// One percent of the full-scale mean squared amplitude: the default
/// energy threshold (lower values are more sensitive).
pub const DEFAULT_VAD_ENERGY_THRESHOLD: u32 = 10736762;

impl Default for Settings {
    /// Conservative defaults: denoising and voice-activity detection on,
    /// keyboard output off for safety.
    fn default() -> (s: Settings)
        ensures
            s.model_path is None,
            s.enable_denoise,
            s.enable_vad,
            s.vad_mode == VadMode::Quality,
            s.vad_energy_threshold == DEFAULT_VAD_ENERGY_THRESHOLD,
            s.silence_threshold_ms == 1000,
            !s.enable_keyboard_output,
            s.keyboard_output_delay_ms == 500,
            s.commands@ =~= Seq::<(String, CommandAction)>::empty(),
    {
        Settings {
            model_path: None,
            enable_denoise: true,
            enable_vad: true,
            vad_mode: VadMode::Quality,
            vad_energy_threshold: DEFAULT_VAD_ENERGY_THRESHOLD,
            silence_threshold_ms: 1000,
            enable_keyboard_output: false,
            keyboard_output_delay_ms: 500,
            commands: Vec::new(),
        }
    }
}

/// The directory that holds this application's configuration, under the
/// platform configuration directory `base` that a collaborator supplies.
pub fn get_config_dir(base: &str) -> (r: String)
    ensures
        r@ == base@ + "/whisperkey"@,
{
    let mut s = base.to_owned();
    s.append("/whisperkey");
    s
}

/// The configuration file inside [`get_config_dir`].
pub fn get_config_file_path(base: &str) -> (r: String)
    ensures
        r@ == base@ + "/whisperkey"@ + "/config.toml"@,
{
    let mut s = get_config_dir(base);
    s.append("/config.toml");
    s
}

} // verus!
