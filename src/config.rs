use vstd::prelude::*;

use std::collections::HashMap;

use crate::automation::Automation;
use crate::data::DataHolder;

verus! {

/// Storage format of a render target.
#[derive(Clone, Copy, Debug, PartialEq, Eq, Structural)]
pub enum BufferPrecision {
    U8,
    F16,
    F32,
}

impl Default for BufferPrecision {
    fn default() -> (r: BufferPrecision)
        ensures
            r == BufferPrecision::U8,
    {
        BufferPrecision::U8
    }
}

/// A block of pixel data and its dimensions.
#[derive(Debug)]
pub struct Buffer {
    pub dimensions: Vec<usize>,
    pub data: Option<Vec<u8>>,
}

/// How a render stage samples one of its inputs.
#[derive(Clone, Debug, PartialEq)]
pub enum InputSampler {
    Nearest(String),
    Linear(String),
    Mipmaps(String),
}

/// How a render stage samples one of its inputs, as older configurations
/// name it.
#[derive(Clone, Debug, PartialEq)]
pub enum SampledInput {
    Nearest(String),
    Linear(String),
    Mipmaps(String),
}

/// The remote-control server.
#[derive(Clone, Debug, PartialEq, Eq)]
pub struct ServerConfig {
    pub ip: String,
    pub port: usize,
    pub enable: bool,
}

/// Playback speed of a video input, in ticks (see `FIXED_ONE`): frames per
/// second or frames per beat.
#[derive(Clone, Copy, Debug, PartialEq, Eq, Structural)]
pub enum Speed {
    Fps(i64),
    Fpb(i64),
}

/// A source of images or events.
#[derive(Clone, Debug, PartialEq)]
pub enum InputConfig {
    Video { path: String, width: usize, height: usize, speed: Speed },
    Picture { path: String, width: usize, height: usize },
    Cam { path: String, width: usize, height: usize },
    Midi { name: String },
}

impl InputConfig {
    pub fn is_video(&self) -> (r: bool)
        ensures
            r == (*self is Video),
    {
        matches!(self, InputConfig::Video { .. })
    }

    pub fn is_picture(&self) -> (r: bool)
        ensures
            r == (*self is Picture),
    {
        matches!(self, InputConfig::Picture { .. })
    }

    pub fn is_cam(&self) -> (r: bool)
        ensures
            r == (*self is Cam),
    {
        matches!(self, InputConfig::Cam { .. })
    }

    pub fn is_midi(&self) -> (r: bool)
        ensures
            r == (*self is Midi),
    {
        matches!(self, InputConfig::Midi { .. })
    }
}

/// The range a filter variable is edited in: integers as (min, max, step),
/// fixed-point numbers likewise in ticks, a color, or no range.
#[derive(Clone, Copy, Debug, PartialEq, Eq, Structural)]
pub enum DataRange {
    IntRange(i64, i64, i64),
    FloatRange(i64, i64, i64),
    ColorRange,
    Unbounded,
}

/// The geometry a filter draws: a rectangle (x, y, width, height in ticks)
/// or a number of particles.
#[derive(Clone, Copy, Debug, PartialEq, Eq, Structural)]
pub enum FilterMode {
    Rectangle(i64, i64, i64, i64),
    Particles(usize),
}

/// A filter: its shaders and the variables they expose.
#[derive(Debug)]
pub struct FilterConfig {
    pub mode: FilterMode,
    pub inputs: Vec<String>,
    pub vertex_shader: Vec<String>,
    pub fragment_shader: Vec<String>,
    pub variables: HashMap<String, (DataHolder, DataRange)>,
}

/// A variable binding of a render stage: its base value, its automation,
/// and an optional link to an input's value.
pub type StageVariable = (DataHolder, Automation, Option<(String, DataHolder)>);

/// One stage of the render chain.
#[derive(Debug)]
pub struct RenderStageConfig {
    pub name: String,
    pub filter: String,
    pub filter_mode_params: FilterMode,
    pub inputs: HashMap<String, InputSampler>,
    pub variables: HashMap<String, StageVariable>,
    pub precision: BufferPrecision,
}

/// The output window; the target frame rate is in ticks.
#[derive(Clone, Debug, PartialEq)]
pub struct ViewConfig {
    pub width: i64,
    pub height: i64,
    pub fullscreen: bool,
    pub target_fps: i64,
    pub dynamic: bool,
    pub vsync: bool,
    pub screenshot_path: String,
    pub screenshot: bool,
    pub screenshot_frame_count: i64,
    pub locked_speed: bool,
}

/// A whole project; the tempo is in ticks of beats per minute.
#[derive(Debug)]
pub struct ProjectConfig {
    pub bpm: i64,
    pub view: ViewConfig,
    pub server: ServerConfig,
    pub variables: HashMap<String, (DataHolder, Automation)>,
    pub inputs: HashMap<String, InputConfig>,
    pub render_chain: Vec<RenderStageConfig>,
    pub final_stage: RenderStageConfig,
}

} // verus!
