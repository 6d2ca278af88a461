//! What to ask of the provisioning side for a resource block: which kind of
//! resource to create, and with which settings where the block is silent.

use vstd::prelude::*;
use crate::hcl::{Block, BlockModel};
use crate::text::reads;

verus! {

/// The machine size of an instance whose block names none.
pub open spec fn default_instance_type() -> Seq<char> {
    "t2.micro"@
}

/// The machine image of an instance whose block names none.
pub open spec fn default_ami() -> Seq<char> {
    "ami-12345678"@
}

/// What to create for a resource block.
pub enum ResourceRequest {
    /// A virtual machine.
    Instance { name: String, instance_type: String, ami: String },
    /// A storage bucket. Without a bucket name the provisioning side
    /// makes one up.
    Bucket { name: String, bucket: Option<String> },
    /// A resource of a type that is not provisioned.
    Unknown { resource_type: String, name: String },
}

/// The mathematical content of a [`ResourceRequest`].
pub enum RequestModel {
    Instance { name: Seq<char>, instance_type: Seq<char>, ami: Seq<char> },
    Bucket { name: Seq<char>, bucket: Option<Seq<char>> },
    Unknown { resource_type: Seq<char>, name: Seq<char> },
}

impl View for ResourceRequest {
    type V = RequestModel;

    open spec fn view(&self) -> RequestModel {
        match self {
            ResourceRequest::Instance { name, instance_type, ami } => RequestModel::Instance {
                name: name@,
                instance_type: instance_type@,
                ami: ami@,
            },
            ResourceRequest::Bucket { name, bucket } => RequestModel::Bucket {
                name: name@,
                bucket: match bucket {
                    Some(b) => Some(b@),
                    None => None,
                },
            },
            ResourceRequest::Unknown { resource_type, name } => RequestModel::Unknown {
                resource_type: resource_type@,
                name: name@,
            },
        }
    }
}

/// Why a block yields no request.
#[derive(Clone, Copy, Debug, PartialEq, Eq, Structural)]
pub enum RequestError {
    /// The block is no resource block.
    NotAResource,
    /// A resource block must carry exactly a resource type and a name.
    InvalidResource,
}

/// The value of attribute `key` of `b`, or `default` if `b` has none.
pub open spec fn attribute_or(b: BlockModel, key: Seq<char>, default: Seq<char>) -> Seq<char> {
    if b.attributes.contains_key(key) {
        b.attributes[key]
    } else {
        default
    }
}

/// The request for a block: resource blocks of type `aws_instance` ask
/// for an instance, those of type `aws_s3_bucket` for a bucket.
pub open spec fn request_spec(b: BlockModel) -> Result<RequestModel, RequestError> {
    if b.block_type != "resource"@ {
        Err(RequestError::NotAResource)
    } else if b.labels.len() != 2 {
        Err(RequestError::InvalidResource)
    } else if b.labels[0] == "aws_instance"@ {
        Ok(
            RequestModel::Instance {
                name: b.labels[1],
                instance_type: attribute_or(b, "instance_type"@, default_instance_type()),
                ami: attribute_or(b, "ami"@, default_ami()),
            },
        )
    } else if b.labels[0] == "aws_s3_bucket"@ {
        Ok(
            RequestModel::Bucket {
                name: b.labels[1],
                bucket: if b.attributes.contains_key("bucket"@) {
                    Some(b.attributes["bucket"@])
                } else {
                    None
                },
            },
        )
    } else {
        Ok(RequestModel::Unknown { resource_type: b.labels[0], name: b.labels[1] })
    }
}

/// The model of a request, or of the error in its place.
pub open spec fn request_result(
    r: Result<ResourceRequest, RequestError>,
) -> Result<RequestModel, RequestError> {
    match r {
        Ok(q) => Ok(q@),
        Err(e) => Err(e),
    }
}

/// The value of attribute `key` of `block`, or `default`.
fn attribute_or_default(block: &Block, key: &str, default: &str) -> (r: String)
    ensures
        r@ == attribute_or(block@, key@, default@),
{
    match block.attribute(key) {
        Some(value) => value.clone(),
        None => default.to_owned(),
    }
}

/// Says what to create for `block`.
pub fn request_for(block: &Block) -> (r: Result<ResourceRequest, RequestError>)
    ensures
        request_result(r) == request_spec(block@),
{
    if !reads(block.block_type.as_str(), "resource") {
        return Err(RequestError::NotAResource);
    }
    if block.labels.len() != 2 {
        return Err(RequestError::InvalidResource);
    }
    let name = block.labels[1].clone();
    if reads(block.labels[0].as_str(), "aws_instance") {
        let instance_type = attribute_or_default(block, "instance_type", "t2.micro");
        let ami = attribute_or_default(block, "ami", "ami-12345678");
        Ok(ResourceRequest::Instance { name, instance_type, ami })
    } else if reads(block.labels[0].as_str(), "aws_s3_bucket") {
        let bucket = match block.attribute("bucket") {
            Some(value) => Some(value.clone()),
            None => None,
        };
        Ok(ResourceRequest::Bucket { name, bucket })
    } else {
        Ok(ResourceRequest::Unknown { resource_type: block.labels[0].clone(), name })
    }
}

} // verus!
