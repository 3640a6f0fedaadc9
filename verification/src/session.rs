//! Session resolution: a session tag maps deterministically to the socket
//! path and the liveness-marker path under the shared temporary directory.

use vstd::prelude::*;
use vstd::string::StringExecFns;

verus! {

/// The active session: its tag and the temporary directory under which the
/// daemon's socket and liveness marker live. Pure data; the surrounding
/// binary supplies both values once at startup.
pub struct Session {
    pub tag: String,
    pub tmp_dir: String,
}

pub open spec fn spec_session_file(tmp: Seq<char>, tag: Seq<char>, suffix: Seq<char>) -> Seq<
    char,
> {
    tmp + "/agent-browser-"@ + tag + suffix
}

pub open spec fn spec_socket_path(tmp: Seq<char>, tag: Seq<char>) -> Seq<char> {
    spec_session_file(tmp, tag, ".sock"@)
}

pub open spec fn spec_pid_path(tmp: Seq<char>, tag: Seq<char>) -> Seq<char> {
    spec_session_file(tmp, tag, ".pid"@)
}

impl Session {
    /// A missing tag falls back to the literal tag `default`.
    pub fn new(tmp_dir: String, tag: Option<String>) -> (s: Session)
        ensures
            s.tmp_dir == tmp_dir,
            match tag {
                Some(t) => s.tag == t,
                None => s.tag@ == "default"@,
            },
    {
        let t = match tag {
            Some(t) => t,
            None => String::from_str("default"),
        };
        Session { tag: t, tmp_dir }
    }

    /// The socket path for this session. The exact ensures makes the path
    /// stable: any two calls on equal sessions return equal strings.
    pub fn socket_path(&self) -> (r: String)
        ensures
            r@ == spec_socket_path(self.tmp_dir@, self.tag@),
    {
        let mut r = self.tmp_dir.clone();
        r.append("/agent-browser-");
        r.append(self.tag.as_str());
        r.append(".sock");
        proof {
            assert(r@ =~= spec_socket_path(self.tmp_dir@, self.tag@));
        }
        r
    }

    /// The liveness-marker path for this session; stable for the same
    /// reason as `socket_path`.
    pub fn pid_path(&self) -> (r: String)
        ensures
            r@ == spec_pid_path(self.tmp_dir@, self.tag@),
    {
        let mut r = self.tmp_dir.clone();
        r.append("/agent-browser-");
        r.append(self.tag.as_str());
        r.append(".pid");
        proof {
            assert(r@ =~= spec_pid_path(self.tmp_dir@, self.tag@));
        }
        r
    }
}

proof fn lemma_wrap_injective(p: Seq<char>, s: Seq<char>, a: Seq<char>, b: Seq<char>)
    requires
        p + a + s == p + b + s,
    ensures
        a == b,
{
    assert((p + a + s).len() == p.len() + a.len() + s.len());
    assert((p + b + s).len() == p.len() + b.len() + s.len());
    if a.len() == b.len() && a != b {
        assert(!(a =~= b));
        let i = choose|i: int| 0 <= i < a.len() && a[i] != b[i];
        assert((p + a + s)[p.len() + i] == a[i]);
        assert((p + b + s)[p.len() + i] == b[i]);
    }
}

/// Sessions with distinct tags never collide: their socket paths differ,
/// their marker paths differ, and no socket path equals any marker path.
pub proof fn lemma_session_paths_distinct(tmp: Seq<char>, t1: Seq<char>, t2: Seq<char>)
    requires
        t1 != t2,
    ensures
        spec_socket_path(tmp, t1) != spec_socket_path(tmp, t2),
        spec_pid_path(tmp, t1) != spec_pid_path(tmp, t2),
{
    if spec_socket_path(tmp, t1) == spec_socket_path(tmp, t2) {
        lemma_wrap_injective(tmp + "/agent-browser-"@, ".sock"@, t1, t2);
    }
    if spec_pid_path(tmp, t1) == spec_pid_path(tmp, t2) {
        lemma_wrap_injective(tmp + "/agent-browser-"@, ".pid"@, t1, t2);
    }
}

/// Paths are stable: two resolutions over the same tag and temporary
/// directory give the same socket path and the same marker path, within a
/// process or across processes.
pub proof fn lemma_session_paths_stable(s1: Session, s2: Session)
    requires
        s1.tag@ == s2.tag@,
        s1.tmp_dir@ == s2.tmp_dir@,
    ensures
        spec_socket_path(s1.tmp_dir@, s1.tag@) == spec_socket_path(s2.tmp_dir@, s2.tag@),
        spec_pid_path(s1.tmp_dir@, s1.tag@) == spec_pid_path(s2.tmp_dir@, s2.tag@),
{
}

/// A socket path is never a marker path, whatever the tags: the two
/// suffixes end in different characters.
pub proof fn lemma_socket_path_not_pid_path(tmp: Seq<char>, t1: Seq<char>, t2: Seq<char>)
    ensures
        spec_socket_path(tmp, t1) != spec_pid_path(tmp, t2),
{
    reveal_strlit(".sock");
    reveal_strlit(".pid");
    let a = spec_socket_path(tmp, t1);
    let b = spec_pid_path(tmp, t2);
    assert(a[a.len() - 1] == 'k');
    assert(b[b.len() - 1] == 'd');
}

} // verus!
