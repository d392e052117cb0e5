//! Where the engine publishes pools and filesystems under `/dev/stratis`.

use vstd::prelude::*;

verus! {

/// The directory that holds a directory per pool.
pub const DEV_PATH: &'static str = "/dev/stratis";

/// A path extended by a component, as a Unix path is: an absolute component
/// replaces the path; otherwise it is appended, after a separator when the
/// path is not empty and does not end with one.
pub open spec fn path_push(base: Seq<char>, p: Seq<char>) -> Seq<char> {
    if p.len() > 0 && p[0] == '/' {
        p
    } else if base.len() > 0 && base.last() != '/' {
        base + seq!['/'] + p
    } else {
        base + p
    }
}

/// Extend a path by a component.
pub fn push_component(buf: &mut String, p: &str)
    ensures
        final(buf)@ == path_push(old(buf)@, p@),
{
    let pn = p.unicode_len();
    if pn > 0 && p.get_char(0) == '/' {
        *buf = p.to_owned();
        return;
    }
    let bn = buf.as_str().unicode_len();
    if bn > 0 && buf.as_str().get_char(bn - 1) != '/' {
        buf.append("/");
        proof {
            reveal_strlit("/");
        }
    }
    buf.append(p);
}

/// The directory of a pool's filesystem links.
pub fn pool_directory(pool_name: &str) -> (r: String)
    ensures
        r@ == path_push(DEV_PATH@, pool_name@),
{
    let mut r = String::new();
    push_component(&mut r, DEV_PATH);
    proof {
        reveal_strlit("/dev/stratis");
        assert(path_push(Seq::<char>::empty(), DEV_PATH@) == DEV_PATH@);
    }
    push_component(&mut r, pool_name);
    r
}

/// The path at which a filesystem of a pool is available for mounting.
pub fn filesystem_mount_path(pool_name: &str, fs_name: &str) -> (r: String)
    ensures
        r@ == path_push(path_push(DEV_PATH@, pool_name@), fs_name@),
        pool_name@.len() > 0 && pool_name@[0] != '/' && pool_name@.last() != '/' && fs_name@.len() > 0
            && fs_name@[0] != '/' ==> r@ == DEV_PATH@ + seq!['/'] + pool_name@ + seq!['/'] + fs_name@,
{
    let mut r = pool_directory(pool_name);
    push_component(&mut r, fs_name);
    proof {
        reveal_strlit("/dev/stratis");
        if pool_name@.len() > 0 && pool_name@[0] != '/' && pool_name@.last() != '/' && fs_name@.len() > 0
            && fs_name@[0] != '/' {
            let d = path_push(DEV_PATH@, pool_name@);
            assert(d == DEV_PATH@ + seq!['/'] + pool_name@);
            assert(d.last() == pool_name@.last());
            assert(r@ =~= DEV_PATH@ + seq!['/'] + pool_name@ + seq!['/'] + fs_name@);
        }
    }
    r
}

} // verus!
