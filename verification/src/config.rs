//! What a packing run is asked to do: where to look, how large the sheet may
//! get, and in which form the frame table is written.

use crate::error::PackerError;
use vstd::prelude::*;

verus! {

/// The form in which the frame table is written.
#[derive(Clone, Copy, Debug, PartialEq, Eq, Structural)]
pub enum OutputType {
    Json,
    Binary,
    Ron,
    Template,
}

/// Limits and switches of the packer.
#[derive(Clone, Copy, Debug)]
pub struct PackerConfigOptions {
    /// The largest width and height the sheet may have, in pixels.
    pub max_size: u32,
    /// Whether frame names keep their file extension.
    pub show_extension: bool,
    /// Whether sprites may be turned by 90 degrees.
    pub rotation: bool,
}

impl Default for PackerConfigOptions {
    /// A sheet of up to 1024 pixels a side, names with extension, no turning.
    fn default() -> (options: Self)
        ensures
            options.max_size == 1024,
            options.show_extension,
            !options.rotation,
    {
        PackerConfigOptions { max_size: 1024, show_extension: true, rotation: false }
    }
}

/// One packing run.
#[derive(Clone, Debug)]
pub struct PackerConfig {
    /// The atlas's name: the file stem of everything written.
    pub name: String,
    /// The directory the atlas is written to.
    pub output_path: String,
    pub output_type: OutputType,
    /// The directories searched for sprites.
    pub folders: Vec<String>,
    /// The template to render; needed for [`OutputType::Template`] only.
    pub template_path: Option<String>,
    pub options: PackerConfigOptions,
}

/// The one encoding a run produces, with what its encoder needs.
#[derive(Debug)]
pub enum OutputPlan {
    Json,
    Binary,
    Ron,
    Template { template_path: String },
}

impl PackerConfig {
    /// The encoding this configuration asks for; template output without a
    /// template file is the one request that cannot be served.
    pub open spec fn planned_output(self) -> Result<OutputPlan, PackerError> {
        match self.output_type {
            OutputType::Json => Ok(OutputPlan::Json),
            OutputType::Binary => Ok(OutputPlan::Binary),
            OutputType::Ron => Ok(OutputPlan::Ron),
            OutputType::Template => match self.template_path {
                Some(path) => Ok(OutputPlan::Template { template_path: path }),
                None => Err(PackerError::NoTemplateFile),
            },
        }
    }

    /// Decides which encoding to produce, or fails with
    /// [`PackerError::NoTemplateFile`] where a template is asked for and none
    /// is configured.
    pub fn output_plan(&self) -> (plan: Result<OutputPlan, PackerError>)
        ensures
            plan == self.planned_output(),
    {
        match self.output_type {
            OutputType::Json => Ok(OutputPlan::Json),
            OutputType::Binary => Ok(OutputPlan::Binary),
            OutputType::Ron => Ok(OutputPlan::Ron),
            OutputType::Template => match &self.template_path {
                Some(path) => Ok(OutputPlan::Template { template_path: path.clone() }),
                None => Err(PackerError::NoTemplateFile),
            },
        }
    }
}

} // verus!
