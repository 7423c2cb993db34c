//! The fixed filesystem layout of a workspace, as plain path text.
//!
//! Nothing here touches the filesystem: these functions compute the exact
//! paths and file contents that a workspace consists of, and the binary
//! around the library creates them.

use vstd::prelude::*;

verus! {

pub open spec fn root_prefix() -> Seq<char> {
    "games/"@
}

/// The fixed content of a fresh dataset descriptor: training and
/// validation image paths, one class, named `enemy`.
pub open spec fn descriptor_content() -> Seq<char> {
    "train: data/images/train\nval: data/images/val\nnc: 1\nnames: [\"enemy\"]\n"@
}

/// `games/<name><suffix>`.
fn joined(name: &str, suffix: &str) -> (r: String)
    ensures
        r@ == root_prefix() + name@ + suffix@,
{
    let mut out = String::from_str("games/");
    out.append(name);
    out.append(suffix);
    out
}

/// The root directory of a workspace: `games/<name>`.
pub fn workspace_root(name: &str) -> (r: String)
    ensures
        r@ == root_prefix() + name@,
{
    let mut out = String::from_str("games/");
    out.append(name);
    assert(out@ =~= root_prefix() + name@);
    out
}

/// The five directories every workspace must have, in creation order.
pub fn workspace_dirs(name: &str) -> (r: Vec<String>)
    ensures
        r@.len() == 5,
        r@[0]@ == root_prefix() + name@ + "/data/images/train"@,
        r@[1]@ == root_prefix() + name@ + "/data/images/val"@,
        r@[2]@ == root_prefix() + name@ + "/data/labels/train"@,
        r@[3]@ == root_prefix() + name@ + "/data/labels/val"@,
        r@[4]@ == root_prefix() + name@ + "/data/model"@,
{
    let mut dirs: Vec<String> = Vec::new();
    dirs.push(joined(name, "/data/images/train"));
    dirs.push(joined(name, "/data/images/val"));
    dirs.push(joined(name, "/data/labels/train"));
    dirs.push(joined(name, "/data/labels/val"));
    dirs.push(joined(name, "/data/model"));
    dirs
}

/// Where the dataset descriptor of a workspace lives.
pub fn descriptor_path(name: &str) -> (r: String)
    ensures
        r@ == root_prefix() + name@ + "/data/custom.yaml"@,
{
    joined(name, "/data/custom.yaml")
}

/// The content a fresh dataset descriptor is written with.
pub fn descriptor_text() -> (r: String)
    ensures
        r@ == descriptor_content(),
{
    String::from_str("train: data/images/train\nval: data/images/val\nnc: 1\nnames: [\"enemy\"]\n")
}

/// Where the configuration record of a workspace lives.
pub fn config_path(name: &str) -> (r: String)
    ensures
        r@ == root_prefix() + name@ + "/config.yaml"@,
{
    joined(name, "/config.yaml")
}

} // verus!
