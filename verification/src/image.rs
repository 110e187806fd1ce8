//! The resolved image descriptor that a container is made from.
//!
//! Fetching, caching and unpacking images is the host's business. What is here is the
//! descriptor itself and the reading of an image reference.

use vstd::prelude::*;
use vstd::string::*;
use crate::error::Error;
use crate::string_map::StringMap;
use crate::text::{split_first, split_once};

verus! {

/// The tag that a reference without a tag names.
pub const DEFAULT_TAG: &'static str = "latest";

/// An image as the runtime sees it: its name and tag, its layers in the order in which
/// they are applied, its configuration, and where its binary payload lies.
#[derive(Debug)]
pub struct ImageData {
    pub name: String,
    pub tag: String,
    pub layers: Vec<Layer>,
    pub config: ImageConfig,
    pub wasm_path: Option<String>,
}

/// One layer archive of an image.
#[derive(Debug)]
pub struct Layer {
    pub digest: String,
    pub size: u64,
    pub media_type: String,
    pub path: String,
}

/// What an image says of the containers made from it.
#[derive(Debug)]
pub struct ImageConfig {
    pub env: Vec<String>,
    pub cmd: Vec<String>,
    pub entrypoint: Vec<String>,
    pub workdir: String,
    pub exposed_ports: StringMap<PortConfig>,
    pub volumes: StringMap<VolumeConfig>,
}

/// A port that an image declares.
#[derive(Debug)]
pub struct PortConfig {
    pub protocol: String,
}

impl View for PortConfig {
    type V = Seq<char>;

    open spec fn view(&self) -> Seq<char> {
        self.protocol@
    }
}

/// A volume that an image declares. It carries nothing but its presence.
#[derive(Debug)]
pub struct VolumeConfig {}

impl View for VolumeConfig {
    type V = ();

    open spec fn view(&self) -> () {
        ()
    }
}

/// An image manifest: the configuration blob and the layer blobs.
#[derive(Debug)]
pub struct OCIManifest {
    pub schema_version: u32,
    pub config: OCIDescriptor,
    pub layers: Vec<OCIDescriptor>,
}

/// The address of one blob of an image.
#[derive(Debug)]
pub struct OCIDescriptor {
    pub digest: String,
    pub size: u64,
    pub media_type: String,
}

/// Name and tag of an image reference: `"name"` names the tag `latest`, `"name:tag"`
/// names `tag`, and a reference with two or more `:` names nothing.
pub open spec fn image_ref_parts(image_ref: Seq<char>) -> Option<(Seq<char>, Seq<char>)> {
    match split_first(image_ref, ':') {
        None => Some((image_ref, DEFAULT_TAG@)),
        Some((name, tag)) => if split_first(tag, ':') is None {
            Some((name, tag))
        } else {
            None
        },
    }
}

/// Knows where images are kept on the host.
#[derive(Debug)]
pub struct ImageManager {
    cache_dir: String,
}

impl ImageManager {
    /// The directory under which images are kept.
    pub closed spec fn spec_cache_dir(&self) -> Seq<char> {
        self.cache_dir@
    }

    /// A manager for the images under `cache_dir`.
    pub fn new(cache_dir: String) -> (r: Result<Self, Error>)
        ensures
            r is Ok,
            r.unwrap().spec_cache_dir() == cache_dir@,
    {
        Ok(ImageManager { cache_dir })
    }

    /// The directory under which images are kept.
    pub fn cache_dir(&self) -> (dir: &str)
        ensures
            dir@ == self.spec_cache_dir(),
    {
        self.cache_dir.as_str()
    }

    /// Reads an image reference into name and tag.
    pub fn parse_image_ref(&self, image_ref: &str) -> (r: Result<(String, String), Error>)
        ensures
            match r {
                Ok((name, tag)) => image_ref_parts(image_ref@) == Some((name@, tag@)),
                Err(e) => e == Error::InvalidImageReference && image_ref_parts(image_ref@) is None,
            },
    {
        match split_once(image_ref, ':') {
            None => Ok((image_ref.to_owned(), DEFAULT_TAG.to_owned())),
            Some((name, tag)) => {
                if split_once(tag.as_str(), ':').is_none() {
                    Ok((name, tag))
                } else {
                    Err(Error::InvalidImageReference)
                }
            },
        }
    }
}

impl ImageData {
    /// Where the binary payload lies. An image without one cannot run.
    pub fn wasm_binary_path(&self) -> (r: Result<&str, Error>)
        ensures
            match r {
                Ok(path) => self.wasm_path is Some && path@ == self.wasm_path.unwrap()@,
                Err(e) => e == Error::NoWasmBinary && self.wasm_path is None,
            },
    {
        match &self.wasm_path {
            Some(path) => Ok(path.as_str()),
            None => Err(Error::NoWasmBinary),
        }
    }
}

} // verus!
