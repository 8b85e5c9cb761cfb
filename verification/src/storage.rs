//! Recognising network filesystems from what the operating system reports.
use vstd::prelude::*;

use vstd::string::StringSliceAdditionalSpecFns;

use crate::text::{ascii_bytes, bytes_start_with_ignoring_case, starts_with_ignoring_case};

verus! {

/// `statfs` filesystem magic numbers (Linux) of network filesystems: NFS,
/// CIFS, SMB2, FUSE and AFS.
pub open spec fn network_magics() -> Seq<i64> {
    seq![0x6969, 0xFF534D42, 0xFE534D42, 0x65735546, 0x5346414F]
}

/// Filesystem type names (macOS) of network filesystems.
pub open spec fn network_fs_names() -> Seq<Seq<char>> {
    seq!["nfs"@, "smbfs"@, "afpfs"@, "webdav"@, "cifs"@]
}

/// Whether a Linux filesystem magic number is one of `network_magics()`.
pub fn is_network_magic(f_type: i64) -> (r: bool)
    ensures
        r == network_magics().contains(f_type),
{
    let r = f_type == 0x6969 || f_type == 0xFF534D42 || f_type == 0xFE534D42 || f_type == 0x65735546 || f_type
        == 0x5346414F;
    proof {
        if r {
            if f_type == 0x6969 {
                assert(network_magics()[0] == f_type);
            } else if f_type == 0xFF534D42 {
                assert(network_magics()[1] == f_type);
            } else if f_type == 0xFE534D42 {
                assert(network_magics()[2] == f_type);
            } else if f_type == 0x65735546 {
                assert(network_magics()[3] == f_type);
            } else {
                assert(network_magics()[4] == f_type);
            }
        }
    }
    r
}

/// `name` is, ignoring ASCII case, one of `network_fs_names()`.
pub open spec fn is_network_name(name: Seq<u8>) -> bool {
    exists|i: int|
        0 <= i < network_fs_names().len() && name.len() == network_fs_names()[i].len()
            && starts_with_ignoring_case(name, ascii_bytes(#[trigger] network_fs_names()[i]))
}

/// `name` equals `lit` ignoring ASCII case, `lit` being lower-case ASCII.
fn equals_ignoring_case(name: &[u8], lit: &str) -> (r: bool)
    requires
        vstd::string::is_ascii(lit),
    ensures
        r == (name@.len() == lit@.len() && starts_with_ignoring_case(name@, ascii_bytes(lit@))),
{
    broadcast use vstd::string::is_ascii_spec_bytes;

    let lb = lit.as_bytes();
    assert(lb@ =~= ascii_bytes(lit@));
    name.len() == lb.len() && bytes_start_with_ignoring_case(name, lb)
}

/// Whether a macOS filesystem type name names a network filesystem.
pub fn is_network_fs_name(name: &str) -> (r: bool)
    ensures
        r == is_network_name(name.spec_bytes()),
{
    let b = name.as_bytes();
    proof {
        reveal_strlit("nfs");
        reveal_strlit("smbfs");
        reveal_strlit("afpfs");
        reveal_strlit("webdav");
        reveal_strlit("cifs");
        assert(vstd::string::is_ascii("nfs"));
        assert(vstd::string::is_ascii("smbfs"));
        assert(vstd::string::is_ascii("afpfs"));
        assert(vstd::string::is_ascii("webdav"));
        assert(vstd::string::is_ascii("cifs"));
    }
    let r = equals_ignoring_case(b, "nfs") || equals_ignoring_case(b, "smbfs") || equals_ignoring_case(b, "afpfs")
        || equals_ignoring_case(b, "webdav") || equals_ignoring_case(b, "cifs");
    proof {
        let names = network_fs_names();
        if r {
            if b@.len() == names[0].len() && starts_with_ignoring_case(b@, ascii_bytes(names[0])) {
            } else if b@.len() == names[1].len() && starts_with_ignoring_case(b@, ascii_bytes(names[1])) {
            } else if b@.len() == names[2].len() && starts_with_ignoring_case(b@, ascii_bytes(names[2])) {
            } else if b@.len() == names[3].len() && starts_with_ignoring_case(b@, ascii_bytes(names[3])) {
            } else {
                assert(b@.len() == names[4].len() && starts_with_ignoring_case(b@, ascii_bytes(names[4])));
            }
        } else {
            assert forall|i: int| 0 <= i < names.len() implies !(b@.len() == names[i].len()
                && starts_with_ignoring_case(b@, ascii_bytes(#[trigger] names[i]))) by {
                if i == 0 {
                } else if i == 1 {
                } else if i == 2 {
                } else if i == 3 {
                } else {
                }
            }
        }
    }
    r
}


/// The network filesystem magic numbers are exactly those of NFS (0x6969),
/// CIFS (0xFF534D42), SMB2 and SMB3 (0xFE534D42), FUSE (0x65735546) and AFS
/// (0x5346414F).
pub proof fn lemma_network_magics_are_the_known_ones(f: i64)
    ensures
        network_magics().contains(f) <==> (f == 0x6969 || f == 0xFF534D42 || f == 0xFE534D42 || f == 0x65735546
            || f == 0x5346414F),
{
    if f == 0x6969 {
        assert(network_magics()[0] == f);
    } else if f == 0xFF534D42 {
        assert(network_magics()[1] == f);
    } else if f == 0xFE534D42 {
        assert(network_magics()[2] == f);
    } else if f == 0x65735546 {
        assert(network_magics()[3] == f);
    } else if f == 0x5346414F {
        assert(network_magics()[4] == f);
    }
}


/// The network filesystem names are, ignoring ASCII case, exactly `nfs`,
/// `smbfs`, `afpfs`, `webdav` and `cifs` (given here byte by byte).
pub proof fn lemma_network_names_are_the_known_ones(name: Seq<u8>)
    ensures
        is_network_name(name) <==> {
            let low = name.map_values(|b: u8| crate::text::ascii_lower(b));
            ||| low == seq![110u8, 102, 115]
            ||| low == seq![115u8, 109, 98, 102, 115]
            ||| low == seq![97u8, 102, 112, 102, 115]
            ||| low == seq![119u8, 101, 98, 100, 97, 118]
            ||| low == seq![99u8, 105, 102, 115]
        },
{
    reveal_strlit("nfs");
    reveal_strlit("smbfs");
    reveal_strlit("afpfs");
    reveal_strlit("webdav");
    reveal_strlit("cifs");
    let low = name.map_values(|b: u8| crate::text::ascii_lower(b));
    let lits = seq![
        seq![110u8, 102, 115],
        seq![115u8, 109, 98, 102, 115],
        seq![97u8, 102, 112, 102, 115],
        seq![119u8, 101, 98, 100, 97, 118],
        seq![99u8, 105, 102, 115],
    ];
    assert forall|i: int| 0 <= i < 5 implies ascii_bytes(#[trigger] network_fs_names()[i]) == lits[i] by {
        if i == 0 {
            assert(ascii_bytes(network_fs_names()[0]) =~= lits[0]);
        } else if i == 1 {
            assert(ascii_bytes(network_fs_names()[1]) =~= lits[1]);
        } else if i == 2 {
            assert(ascii_bytes(network_fs_names()[2]) =~= lits[2]);
        } else if i == 3 {
            assert(ascii_bytes(network_fs_names()[3]) =~= lits[3]);
        } else {
            assert(ascii_bytes(network_fs_names()[4]) =~= lits[4]);
        }
    }
    assert forall|i: int| 0 <= i < 5 implies (name.len() == network_fs_names()[i].len() && starts_with_ignoring_case(
        name,
        ascii_bytes(#[trigger] network_fs_names()[i]),
    )) == (low == lits[i]) by {
        assert(ascii_bytes(network_fs_names()[i]) == lits[i]);
        assert(ascii_bytes(network_fs_names()[i]).len() == network_fs_names()[i].len());
        if low == lits[i] {
            assert forall|k: int| 0 <= k < lits[i].len() implies crate::text::ascii_lower(#[trigger] name[k])
                == lits[i][k] by {
                assert(low[k] == crate::text::ascii_lower(name[k]));
            }
        }
        if name.len() == network_fs_names()[i].len() && starts_with_ignoring_case(
            name,
            ascii_bytes(network_fs_names()[i]),
        ) {
            assert(low =~= lits[i]);
        }
    }
    if is_network_name(name) {
        let i = choose|i: int|
            0 <= i < network_fs_names().len() && name.len() == network_fs_names()[i].len()
                && starts_with_ignoring_case(name, ascii_bytes(#[trigger] network_fs_names()[i]));
        assert(low == lits[i]);
    }
    assert forall|i: int| 0 <= i < 5 && low == lits[i] implies is_network_name(name) by {
        assert(starts_with_ignoring_case(name, ascii_bytes(network_fs_names()[i])));
    }
}

} // verus!
