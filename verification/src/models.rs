//! Embedder configuration: which model file to use, how it is laid out,
//! and the image preparation it expects.

use vstd::prelude::*;
use crate::pipeline::{ImageSize, ImageTransform, TransformationPipeline};

verus! {

/// The axis layout the model expects its input in.
#[derive(Clone, Copy, PartialEq, Eq, Structural, Debug)]
pub enum Channels {
    CWH,
    WHC,
}

/// The serialisation format of a model file.
#[derive(Clone, Copy, PartialEq, Eq, Structural, Debug)]
pub enum ModelType {
    ONNX,
    NNEF,
}

impl ModelType {
    /// The file extension used for a downloaded model of this type.
    pub fn to_extension(&self) -> (r: String)
        ensures
            r@ == if *self == ModelType::ONNX {
                "onnx"@
            } else {
                "nnef.tgz"@
            },
    {
        match self {
            ModelType::ONNX => "onnx".to_owned(),
            ModelType::NNEF => "nnef.tgz".to_owned(),
        }
    }
}

/// A well-known architecture an embedder configuration can be derived
/// from.
#[derive(Clone, Copy, PartialEq, Eq, Structural, Debug)]
pub enum ModelArchitecture {
    SqueezeNet,
    MobileNetV2,
    ResNet152,
    EfficientNetLite4,
    GoogleNet,
}

/// A full embedder configuration.
#[derive(Debug)]
pub struct ModelConfig {
    pub model_name: String,
    pub model_url: String,
    pub model_type: ModelType,
    pub image_transformation: TransformationPipeline,
    pub image_size: ImageSize,
    pub layer_name: Option<String>,
    pub channels: Channels,
}

/// The mathematical model of an embedder configuration.
pub struct ModelConfigModel {
    pub model_name: Seq<char>,
    pub model_url: Seq<char>,
    pub model_type: ModelType,
    pub image_transformation: Seq<ImageTransform>,
    pub image_size: ImageSize,
    pub layer_name: Option<Seq<char>>,
    pub channels: Channels,
}

impl View for ModelConfig {
    type V = ModelConfigModel;

    open spec fn view(&self) -> ModelConfigModel {
        ModelConfigModel {
            model_name: self.model_name@,
            model_url: self.model_url@,
            model_type: self.model_type,
            image_transformation: self.image_transformation@,
            image_size: self.image_size,
            layer_name: match self.layer_name {
                Option::Some(s) => Option::Some(s@),
                Option::None => Option::None,
            },
            channels: self.channels,
        }
    }
}

/// Either a full embedder configuration, or a well-known architecture a
/// configuration is derived from.
pub enum GenericModelConfig {
    ModelConfig(ModelConfig),
    ModelArchitecture(ModelArchitecture),
}

/// The mathematical model of a `GenericModelConfig`.
pub enum GenericModelConfigModel {
    Config(ModelConfigModel),
    Architecture(ModelArchitecture),
}

impl View for GenericModelConfig {
    type V = GenericModelConfigModel;

    open spec fn view(&self) -> GenericModelConfigModel {
        match self {
            GenericModelConfig::ModelConfig(c) => GenericModelConfigModel::Config(c@),
            GenericModelConfig::ModelArchitecture(a) => GenericModelConfigModel::Architecture(*a),
        }
    }
}

impl Clone for GenericModelConfig {
    fn clone(&self) -> (r: Self)
        ensures
            r@ == self@,
    {
        match self {
            GenericModelConfig::ModelConfig(c) => GenericModelConfig::ModelConfig(c.clone()),
            GenericModelConfig::ModelArchitecture(a) => GenericModelConfig::ModelArchitecture(*a),
        }
    }
}

impl Clone for ModelConfig {
    fn clone(&self) -> (r: Self)
        ensures
            r@ == self@,
    {
        let layer_name = match &self.layer_name {
            Option::Some(s) => Option::Some(s.clone()),
            Option::None => Option::None,
        };
        ModelConfig {
            model_name: self.model_name.clone(),
            model_url: self.model_url.clone(),
            model_type: self.model_type,
            image_transformation: self.image_transformation.clone(),
            image_size: self.image_size,
            layer_name,
            channels: self.channels,
        }
    }
}

} // verus!
