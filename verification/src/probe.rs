//! The probe grid and its fixed constants: branch names, setup-file names,
//! the raw-content host, and the manifest markers scanned for in file bodies.

use crate::classify::ProbeResult;
use crate::text::{contains_bytes, contains_sub};
use vstd::prelude::*;

verus! {

/// Branches probed, in priority order.
#[derive(Clone, Copy, Debug, PartialEq, Eq, Structural)]
pub enum Branch {
    Main,
    Master,
}

/// Legacy setup files probed on each branch, in priority order.
#[derive(Clone, Copy, Debug, PartialEq, Eq, Structural)]
pub enum ProbeFile {
    SetupCfg,
    SetupPy,
}

/// One coordinate of the search grid.
#[derive(Clone, Copy, Debug, PartialEq, Eq, Structural)]
pub struct ProbeTarget {
    pub branch: Branch,
    pub file: ProbeFile,
}

/// Number of grid points: two branches times two files.
pub const GRID_SIZE: usize = 4;

/// The probe grid in priority order: `main` before `master`, and on each
/// branch `setup.cfg` before `setup.py`.
pub open spec fn grid(i: int) -> ProbeTarget {
    if i == 0 {
        ProbeTarget { branch: Branch::Main, file: ProbeFile::SetupCfg }
    } else if i == 1 {
        ProbeTarget { branch: Branch::Main, file: ProbeFile::SetupPy }
    } else if i == 2 {
        ProbeTarget { branch: Branch::Master, file: ProbeFile::SetupCfg }
    } else {
        ProbeTarget { branch: Branch::Master, file: ProbeFile::SetupPy }
    }
}

/// The grid point probed at step `i`.
pub fn grid_target(i: usize) -> (t: ProbeTarget)
    requires
        i < GRID_SIZE,
    ensures
        t == grid(i as int),
{
    if i == 0 {
        ProbeTarget { branch: Branch::Main, file: ProbeFile::SetupCfg }
    } else if i == 1 {
        ProbeTarget { branch: Branch::Main, file: ProbeFile::SetupPy }
    } else if i == 2 {
        ProbeTarget { branch: Branch::Master, file: ProbeFile::SetupCfg }
    } else {
        ProbeTarget { branch: Branch::Master, file: ProbeFile::SetupPy }
    }
}

/// `napari.yaml`
pub open spec fn spec_yaml_marker() -> Seq<u8> {
    seq![110u8, 97u8, 112u8, 97u8, 114u8, 105u8, 46u8, 121u8, 97u8, 109u8, 108u8]
}

/// `napari.yml`
pub open spec fn spec_yml_marker() -> Seq<u8> {
    seq![110u8, 97u8, 112u8, 97u8, 114u8, 105u8, 46u8, 121u8, 109u8, 108u8]
}

/// `https://raw.githubusercontent.com/`
pub open spec fn spec_raw_host() -> Seq<u8> {
    seq![104u8, 116u8, 116u8, 112u8, 115u8, 58u8, 47u8, 47u8, 114u8, 97u8, 119u8, 46u8, 103u8, 105u8, 116u8, 104u8, 117u8, 98u8, 117u8, 115u8, 101u8, 114u8, 99u8, 111u8, 110u8, 116u8, 101u8, 110u8, 116u8, 46u8, 99u8, 111u8, 109u8, 47u8]
}

/// `https://github.com/`
pub open spec fn spec_github_host() -> Seq<u8> {
    seq![104u8, 116u8, 116u8, 112u8, 115u8, 58u8, 47u8, 47u8, 103u8, 105u8, 116u8, 104u8, 117u8, 98u8, 46u8, 99u8, 111u8, 109u8, 47u8]
}

/// `main`
pub open spec fn spec_main_name() -> Seq<u8> {
    seq![109u8, 97u8, 105u8, 110u8]
}

/// `master`
pub open spec fn spec_master_name() -> Seq<u8> {
    seq![109u8, 97u8, 115u8, 116u8, 101u8, 114u8]
}

/// `setup.cfg`
pub open spec fn spec_cfg_name() -> Seq<u8> {
    seq![115u8, 101u8, 116u8, 117u8, 112u8, 46u8, 99u8, 102u8, 103u8]
}

/// `setup.py`
pub open spec fn spec_py_name() -> Seq<u8> {
    seq![115u8, 101u8, 116u8, 117u8, 112u8, 46u8, 112u8, 121u8]
}

/// The byte name of a branch.
pub open spec fn spec_branch_name(b: Branch) -> Seq<u8> {
    match b {
        Branch::Main => spec_main_name(),
        Branch::Master => spec_master_name(),
    }
}

/// The byte name of a probe file.
pub open spec fn spec_file_name(f: ProbeFile) -> Seq<u8> {
    match f {
        ProbeFile::SetupCfg => spec_cfg_name(),
        ProbeFile::SetupPy => spec_py_name(),
    }
}

/// The byte name of a branch.
pub fn branch_name(b: Branch) -> (r: Vec<u8>)
    ensures
        r@ == spec_branch_name(b),
{
    match b {
        Branch::Main => {
            let r = vec![109u8, 97u8, 105u8, 110u8];
            proof {
                assert(r@ =~= spec_main_name());
            }
            r
        },
        Branch::Master => {
            let r = vec![109u8, 97u8, 115u8, 116u8, 101u8, 114u8];
            proof {
                assert(r@ =~= spec_master_name());
            }
            r
        },
    }
}

/// The byte name of a probe file.
pub fn file_name(f: ProbeFile) -> (r: Vec<u8>)
    ensures
        r@ == spec_file_name(f),
{
    match f {
        ProbeFile::SetupCfg => {
            let r = vec![115u8, 101u8, 116u8, 117u8, 112u8, 46u8, 99u8, 102u8, 103u8];
            proof {
                assert(r@ =~= spec_cfg_name());
            }
            r
        },
        ProbeFile::SetupPy => {
            let r = vec![115u8, 101u8, 116u8, 117u8, 112u8, 46u8, 112u8, 121u8];
            proof {
                assert(r@ =~= spec_py_name());
            }
            r
        },
    }
}

/// The host prefix stripped from repository URLs.
pub fn github_host() -> (r: Vec<u8>)
    ensures
        r@ == spec_github_host(),
{
    let r = vec![104u8, 116u8, 116u8, 112u8, 115u8, 58u8, 47u8, 47u8, 103u8, 105u8, 116u8, 104u8, 117u8, 98u8, 46u8, 99u8, 111u8, 109u8, 47u8];
    proof {
        assert(r@ =~= spec_github_host());
    }
    r
}

/// Append `src` to `dst`.
fn append_bytes(dst: &mut Vec<u8>, src: &Vec<u8>)
    ensures
        final(dst)@ == old(dst)@ + src@,
{
    let n = src.len();
    let ghost pre = dst@;
    let mut i: usize = 0;
    proof {
        assert(dst@ =~= pre + src@.subrange(0, 0));
    }
    while i < n
        invariant
            0 <= i <= n,
            n == src@.len(),
            dst@ == pre + src@.subrange(0, i as int),
        decreases n - i,
    {
        dst.push(src[i]);
        assert(dst@ =~= pre + src@.subrange(0, i + 1));
        i = i + 1;
    }
    assert(pre + src@.subrange(0, n as int) =~= pre + src@);
}

/// The raw-content URL of one grid point of one repository:
/// host, repository, `/`, branch, `/`, file.
pub open spec fn spec_probe_url(repo: Seq<u8>, t: ProbeTarget) -> Seq<u8> {
    spec_raw_host() + repo + seq![47u8] + spec_branch_name(t.branch) + seq![47u8]
        + spec_file_name(t.file)
}

/// Build the raw-content URL fetched for one grid point of one repository.
pub fn probe_url(repo: &Vec<u8>, t: ProbeTarget) -> (r: Vec<u8>)
    ensures
        r@ == spec_probe_url(repo@, t),
{
    let mut r = vec![104u8, 116u8, 116u8, 112u8, 115u8, 58u8, 47u8, 47u8, 114u8, 97u8, 119u8, 46u8, 103u8, 105u8, 116u8, 104u8, 117u8, 98u8, 117u8, 115u8, 101u8, 114u8, 99u8, 111u8, 110u8, 116u8, 101u8, 110u8, 116u8, 46u8, 99u8, 111u8, 109u8, 47u8];
    proof {
        assert(r@ =~= spec_raw_host());
    }
    append_bytes(&mut r, repo);
    r.push(47u8);
    let b = branch_name(t.branch);
    append_bytes(&mut r, &b);
    r.push(47u8);
    let f = file_name(t.file);
    append_bytes(&mut r, &f);
    proof {
        assert(r@ =~= spec_probe_url(repo@, t));
    }
    r
}

/// Prefix a bare repository identifier with the code-hosting URL again, as
/// the reported identifier lists carry full URLs.
pub fn github_url(repo: &Vec<u8>) -> (r: Vec<u8>)
    ensures
        r@ == spec_github_host() + repo@,
{
    let mut r = github_host();
    append_bytes(&mut r, repo);
    r
}

/// A fetched body carries the targeted-manifest marker: one of the two fixed
/// marker strings occurs in it as a substring.
pub open spec fn spec_has_marker(body: Seq<u8>) -> bool {
    contains_sub(body, spec_yaml_marker()) || contains_sub(body, spec_yml_marker())
}

/// Scan a fetched body for the two manifest markers.
pub fn has_marker(body: &Vec<u8>) -> (r: bool)
    ensures
        r == spec_has_marker(body@),
{
    let yaml = vec![110u8, 97u8, 112u8, 97u8, 114u8, 105u8, 46u8, 121u8, 97u8, 109u8, 108u8];
    let yml = vec![110u8, 97u8, 112u8, 97u8, 114u8, 105u8, 46u8, 121u8, 109u8, 108u8];
    proof {
        assert(yaml@ =~= spec_yaml_marker());
        assert(yml@ =~= spec_yml_marker());
    }
    if contains_bytes(body, &yaml) {
        true
    } else {
        contains_bytes(body, &yml)
    }
}

/// Turn a fetched body into the outcome of its probe.
pub fn probe_result_of_body(body: &Vec<u8>) -> (r: ProbeResult)
    ensures
        r == if spec_has_marker(body@) {
            ProbeResult::FoundWithMarker
        } else {
            ProbeResult::FoundWithoutMarker
        },
{
    if has_marker(body) {
        ProbeResult::FoundWithMarker
    } else {
        ProbeResult::FoundWithoutMarker
    }
}

} // verus!
