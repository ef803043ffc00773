//! A reference picture of the service's node tree: the visible
//! semantics of create, read, update, delete, exists, children, and
//! ephemerals that the session's end-to-end properties are stated
//! against. It tracks only what those properties speak of — each node's
//! data, its data version, and whether it is ephemeral; the remaining
//! stat fields stay zero.

use vstd::prelude::*;

use crate::codec::WIRE_LEN_MAX;
use crate::error::ServerErrorCode;
use crate::resp::Stat;

verus! {

/// One node: its full path, its bytes, whether it dies with its
/// session, and how often its data has been set.
#[derive(Debug, Clone, PartialEq, Eq)]
pub struct ZNode {
    pub path: String,
    pub data: Vec<u8>,
    pub ephemeral: bool,
    pub version: i32,
}

/// The view of one node.
pub ghost struct ZNodeV {
    pub path: Seq<char>,
    pub data: Seq<u8>,
    pub ephemeral: bool,
    pub version: i32,
}

impl View for ZNode {
    type V = ZNodeV;

    open spec fn view(&self) -> ZNodeV {
        ZNodeV { path: self.path@, data: self.data@, ephemeral: self.ephemeral, version: self.version }
    }
}

/// The views of a list of nodes.
pub open spec fn znodes_v(s: Seq<ZNode>) -> Seq<ZNodeV> {
    Seq::new(s.len(), |i: int| s[i]@)
}

/// Whether some node is at `p`.
pub open spec fn znode_has(t: Seq<ZNodeV>, p: Seq<char>) -> bool
    decreases t.len(),
{
    if t.len() == 0 {
        false
    } else if t[0].path == p {
        true
    } else {
        znode_has(t.drop_first(), p)
    }
}

/// The first node at `p`, if any.
pub open spec fn znode_lookup(t: Seq<ZNodeV>, p: Seq<char>) -> Option<ZNodeV>
    decreases t.len(),
{
    if t.len() == 0 {
        None
    } else if t[0].path == p {
        Some(t[0])
    } else {
        znode_lookup(t.drop_first(), p)
    }
}

/// The tree without any node at `p`, order kept.
pub open spec fn znode_remove(t: Seq<ZNodeV>, p: Seq<char>) -> Seq<ZNodeV>
    decreases t.len(),
{
    if t.len() == 0 {
        Seq::empty()
    } else if t[0].path == p {
        znode_remove(t.drop_first(), p)
    } else {
        seq![t[0]] + znode_remove(t.drop_first(), p)
    }
}

/// The stat the model reports for a node: the tracked fields, the rest
/// zero.
pub open spec fn stat_of(n: ZNodeV) -> Stat {
    Stat {
        czxid: 0,
        mzxid: 0,
        ctime: 0,
        mtime: 0,
        version: n.version,
        cversion: 0,
        aversion: 0,
        ephemeral_owner: if n.ephemeral {
            1
        } else {
            0
        },
        data_length: n.data.len() as i32,
        num_children: 0,
        pzxid: 0,
    }
}

/// Whether `q` is a direct child of `parent`: it goes on below it by
/// exactly one name, which holds no slash.
pub open spec fn is_direct_child(parent: Seq<char>, q: Seq<char>) -> bool {
    let pre = if parent == seq!['/'] {
        seq!['/']
    } else {
        parent + seq!['/']
    };
    &&& q.len() > pre.len()
    &&& q.take(pre.len() as int) == pre
    &&& forall|i: int| pre.len() <= i < q.len() ==> q[i] != '/'
}

/// The name of a direct child: its path past the parent prefix.
pub open spec fn child_name(parent: Seq<char>, q: Seq<char>) -> Seq<char> {
    let pre = if parent == seq!['/'] {
        seq!['/']
    } else {
        parent + seq!['/']
    };
    q.skip(pre.len() as int)
}

/// The names of `parent`'s direct children, in tree order.
pub open spec fn child_names(t: Seq<ZNodeV>, parent: Seq<char>) -> Seq<Seq<char>>
    decreases t.len(),
{
    if t.len() == 0 {
        Seq::empty()
    } else if is_direct_child(parent, t[0].path) {
        seq![child_name(parent, t[0].path)] + child_names(t.drop_first(), parent)
    } else {
        child_names(t.drop_first(), parent)
    }
}

/// Whether `q` starts with `prefix`.
pub open spec fn starts_with(q: Seq<char>, prefix: Seq<char>) -> bool {
    q.len() >= prefix.len() && q.take(prefix.len() as int) == prefix
}

/// The paths of the ephemeral nodes under `prefix`, in tree order.
pub open spec fn eph_paths(t: Seq<ZNodeV>, prefix: Seq<char>) -> Seq<Seq<char>>
    decreases t.len(),
{
    if t.len() == 0 {
        Seq::empty()
    } else if t[0].ephemeral && starts_with(t[0].path, prefix) {
        seq![t[0].path] + eph_paths(t.drop_first(), prefix)
    } else {
        eph_paths(t.drop_first(), prefix)
    }
}

/// A tree has at most one node per path, and every node's data fits a
/// wire field.
pub open spec fn tree_wf(t: Seq<ZNodeV>) -> bool {
    &&& forall|i: int, j: int|
        0 <= i < j < t.len() ==> (#[trigger] t[i]).path != (#[trigger] t[j]).path
    &&& forall|i: int| 0 <= i < t.len() ==> (#[trigger] t[i]).data.len() <= WIRE_LEN_MAX
}

/// Looking a path up where no node is finds nothing.
pub proof fn lemma_znode_lookup_absent(t: Seq<ZNodeV>, p: Seq<char>)
    requires
        !znode_has(t, p),
    ensures
        znode_lookup(t, p) is None,
    decreases t.len(),
{
    if t.len() > 0 {
        lemma_znode_lookup_absent(t.drop_first(), p);
    }
}

/// Deleting a node deletes exactly that node: the path is gone, every
/// other path keeps its node.
pub proof fn lemma_znode_remove(t: Seq<ZNodeV>, p: Seq<char>, q: Seq<char>)
    ensures
        !znode_has(znode_remove(t, p), p),
        q != p ==> znode_lookup(znode_remove(t, p), q) == znode_lookup(t, q),
        q != p ==> znode_has(znode_remove(t, p), q) == znode_has(t, q),
    decreases t.len(),
{
    if t.len() > 0 {
        lemma_znode_remove(t.drop_first(), p, q);
        if t[0].path == p {
        } else {
            let r = seq![t[0]] + znode_remove(t.drop_first(), p);
            assert(r[0] == t[0]);
            assert(r.drop_first() =~= znode_remove(t.drop_first(), p));
        }
    }
}

/// Looking up in a tree extended by one node: an earlier node for the
/// path wins, else the new node answers for its path.
pub proof fn lemma_znode_lookup_append(t: Seq<ZNodeV>, e: ZNodeV, q: Seq<char>)
    ensures
        znode_has(t, q) ==> znode_lookup(t + seq![e], q) == znode_lookup(t, q),
        !znode_has(t, q) && e.path == q ==> znode_lookup(t + seq![e], q) == Some(e),
        !znode_has(t, q) && e.path != q ==> znode_lookup(t + seq![e], q) is None,
        znode_has(t + seq![e], q) == (znode_has(t, q) || e.path == q),
    decreases t.len(),
{
    if t.len() == 0 {
        assert(t + seq![e] =~= seq![e]);
        assert((t + seq![e])[0] == e);
        assert((t + seq![e]).drop_first() =~= Seq::<ZNodeV>::empty());
        assert(znode_lookup(Seq::<ZNodeV>::empty(), q) is None);
        assert(!znode_has(Seq::<ZNodeV>::empty(), q));
    } else {
        lemma_znode_lookup_append(t.drop_first(), e, q);
        let r = t + seq![e];
        assert(r[0] == t[0]);
        assert(r.drop_first() =~= t.drop_first() + seq![e]);
    }
}

/// A node just created reads back with the bytes it was created with:
/// what a successful create followed by a get on the same path returns.
pub proof fn lemma_create_then_get(t: Seq<ZNodeV>, p: Seq<char>, d: Seq<u8>, eph: bool)
    requires
        !znode_has(t, p),
    ensures
        znode_lookup(t + seq![ZNodeV { path: p, data: d, ephemeral: eph, version: 0 }], p) matches
            Some(n) && n.data == d,
{
    lemma_znode_lookup_append(t, ZNodeV { path: p, data: d, ephemeral: eph, version: 0 }, p);
}

/// A node just deleted does not exist: what a delete followed by an
/// exists on the same path returns.
pub proof fn lemma_delete_then_exists(t: Seq<ZNodeV>, p: Seq<char>)
    ensures
        !znode_has(znode_remove(t, p), p),
{
    lemma_znode_remove(t, p, p);
}

/// One more node extends each tree function by that node's
/// contribution.
pub proof fn lemma_tree_snoc(t: Seq<ZNodeV>, p: Seq<char>, k: int)
    requires
        0 <= k < t.len(),
    ensures
        znode_remove(t.take(k + 1), p) == znode_remove(t.take(k), p) + (if t[k].path == p {
            Seq::<ZNodeV>::empty()
        } else {
            seq![t[k]]
        }),
        znode_has(t.take(k + 1), p) == (znode_has(t.take(k), p) || t[k].path == p),
        znode_lookup(t.take(k + 1), p) == (if znode_has(t.take(k), p) {
            znode_lookup(t.take(k), p)
        } else if t[k].path == p {
            Some(t[k])
        } else {
            None::<ZNodeV>
        }),
        child_names(t.take(k + 1), p) == child_names(t.take(k), p) + (if is_direct_child(
            p,
            t[k].path,
        ) {
            seq![child_name(p, t[k].path)]
        } else {
            Seq::<Seq<char>>::empty()
        }),
        eph_paths(t.take(k + 1), p) == eph_paths(t.take(k), p) + (if t[k].ephemeral && starts_with(
            t[k].path,
            p,
        ) {
            seq![t[k].path]
        } else {
            Seq::<Seq<char>>::empty()
        }),
    decreases k,
{
    if k == 0 {
        let u = t.take(1);
        assert(u.len() == 1);
        assert(u[0] == t[0]);
        assert(u.drop_first() =~= Seq::<ZNodeV>::empty());
        assert(znode_remove(Seq::<ZNodeV>::empty(), p) == Seq::<ZNodeV>::empty());
        assert(!znode_has(Seq::<ZNodeV>::empty(), p));
        assert(znode_lookup(Seq::<ZNodeV>::empty(), p) is None);
        assert(child_names(Seq::<ZNodeV>::empty(), p) == Seq::<Seq<char>>::empty());
        assert(eph_paths(Seq::<ZNodeV>::empty(), p) == Seq::<Seq<char>>::empty());
        assert(t.take(0) =~= Seq::<ZNodeV>::empty());
        if t[0].path == p {
            assert(znode_remove(u, p) =~= znode_remove(t.take(0), p));
        } else {
            assert(znode_remove(u, p) =~= znode_remove(t.take(0), p) + seq![t[0]]);
        }
        if is_direct_child(p, t[0].path) {
            assert(child_names(u, p) =~= child_names(t.take(0), p) + seq![child_name(p, t[0].path)]);
        } else {
            assert(child_names(u, p) =~= child_names(t.take(0), p));
        }
        if t[0].ephemeral && starts_with(t[0].path, p) {
            assert(eph_paths(u, p) =~= eph_paths(t.take(0), p) + seq![t[0].path]);
        } else {
            assert(eph_paths(u, p) =~= eph_paths(t.take(0), p));
        }
    } else {
        let d = t.drop_first();
        lemma_tree_snoc(d, p, k - 1);
        let a = t.take(k + 1);
        let b = t.take(k);
        assert(a.drop_first() =~= d.take(k));
        assert(b.drop_first() =~= d.take(k - 1));
        assert(a[0] == t[0]);
        assert(b[0] == t[0]);
        assert(d[k - 1] == t[k]);
        if t[0].path == p {
        } else {
            assert(seq![t[0]] + (znode_remove(d.take(k - 1), p) + (if t[k].path == p {
                Seq::<ZNodeV>::empty()
            } else {
                seq![t[k]]
            })) =~= (seq![t[0]] + znode_remove(d.take(k - 1), p)) + (if t[k].path == p {
                Seq::<ZNodeV>::empty()
            } else {
                seq![t[k]]
            }));
        }
        if is_direct_child(p, t[0].path) {
            assert(seq![child_name(p, t[0].path)] + (child_names(d.take(k - 1), p) + (
            if is_direct_child(p, t[k].path) {
                seq![child_name(p, t[k].path)]
            } else {
                Seq::<Seq<char>>::empty()
            })) =~= (seq![child_name(p, t[0].path)] + child_names(d.take(k - 1), p)) + (
            if is_direct_child(p, t[k].path) {
                seq![child_name(p, t[k].path)]
            } else {
                Seq::<Seq<char>>::empty()
            }));
        }
        if t[0].ephemeral && starts_with(t[0].path, p) {
            assert(seq![t[0].path] + (eph_paths(d.take(k - 1), p) + (if t[k].ephemeral
                && starts_with(t[k].path, p) {
                seq![t[k].path]
            } else {
                Seq::<Seq<char>>::empty()
            })) =~= (seq![t[0].path] + eph_paths(d.take(k - 1), p)) + (if t[k].ephemeral
                && starts_with(t[k].path, p) {
                seq![t[k].path]
            } else {
                Seq::<Seq<char>>::empty()
            }));
        }
    }
}

/// A copy of a byte vector.
fn clone_bytes(v: &Vec<u8>) -> (r: Vec<u8>)
    ensures
        r@ == v@,
{
    let mut r: Vec<u8> = Vec::new();
    let mut k: usize = 0;
    while k < v.len()
        invariant
            k <= v@.len(),
            r@ =~= v@.take(k as int),
        decreases v@.len() - k,
    {
        r.push(v[k]);
        proof {
            assert(r@ =~= v@.take(k as int + 1));
        }
        k += 1;
    }
    proof {
        assert(v@.take(v@.len() as int) =~= v@);
    }
    r
}

/// Whether `q` starts with `prefix`, checked character by character.
#[verifier::loop_isolation(false)]
fn starts_with_str(q: &String, prefix: &String) -> (b: bool)
    ensures
        b == starts_with(q@, prefix@),
{
    let qn = q.as_str().unicode_len();
    let pn = prefix.as_str().unicode_len();
    if qn < pn {
        return false;
    }
    let mut k: usize = 0;
    while k < pn
        invariant
            k <= pn,
            forall|j: int| 0 <= j < k ==> q@[j] == prefix@[j],
        decreases pn - k,
    {
        if q.as_str().get_char(k) != prefix.as_str().get_char(k) {
            proof {
                assert(q@.take(pn as int)[k as int] != prefix@[k as int]);
            }
            return false;
        }
        k += 1;
    }
    proof {
        assert(q@.take(pn as int) =~= prefix@);
    }
    true
}

/// The tracked stat of a node.
fn node_stat(n: &ZNode) -> (r: Stat)
    requires
        n@.data.len() <= WIRE_LEN_MAX,
    ensures
        r == stat_of(n@),
{
    Stat {
        czxid: 0,
        mzxid: 0,
        ctime: 0,
        mtime: 0,
        version: n.version,
        cversion: 0,
        aversion: 0,
        ephemeral_owner: if n.ephemeral {
            1
        } else {
            0
        },
        data_length: n.data.len() as i32,
        num_children: 0,
        pzxid: 0,
    }
}

/// The node tree.
#[derive(Debug)]
pub struct NodeStore {
    nodes: Vec<ZNode>,
}

impl NodeStore {
    /// The nodes, in creation order.
    pub closed spec fn nodes(self) -> Seq<ZNodeV> {
        znodes_v(self.nodes@)
    }

    pub closed spec fn wf(self) -> bool {
        tree_wf(self.nodes())
    }

    /// An empty tree.
    pub fn new() -> (r: NodeStore)
        ensures
            r.wf(),
            r.nodes() == Seq::<ZNodeV>::empty(),
    {
        let r = NodeStore { nodes: Vec::new() };
        proof {
            assert(r.nodes() =~= Seq::<ZNodeV>::empty());
        }
        r
    }

    /// Whether a node is at `path`, with its index.
    #[verifier::loop_isolation(false)]
    fn find(&self, path: &String) -> (r: Option<usize>)
        ensures
            (match r {
                Some(k) => k < self.nodes().len() && self.nodes()[k as int].path == path@
                    && znode_has(self.nodes(), path@) && (forall|j: int|
                    0 <= j < k ==> (#[trigger] self.nodes()[j]).path != path@),
                None => !znode_has(self.nodes(), path@),
            }),
    {
        let ghost t = self.nodes();
        let mut k: usize = 0;
        proof {
            assert(t.take(0) =~= Seq::<ZNodeV>::empty());
        }
        while k < self.nodes.len()
            invariant
                k <= self.nodes@.len(),
                !znode_has(t.take(k as int), path@),
                forall|j: int| 0 <= j < k ==> (#[trigger] t[j]).path != path@,
            decreases self.nodes@.len() - k,
        {
            proof {
                assert(t[k as int] == self.nodes@[k as int]@);
                lemma_tree_snoc(t, path@, k as int);
            }
            if self.nodes[k].path.eq(path) {
                proof {
                    assert(znode_has(t.take(k as int + 1), path@));
                    lemma_znode_has_extend(t, path@, k as int + 1);
                }
                return Some(k);
            }
            k += 1;
        }
        proof {
            assert(t.take(t.len() as int) =~= t);
        }
        None
    }

    /// Creates a node: refused with the node-exists code where one is
    /// already there, else added with version zero.
    pub fn create(&mut self, path: String, data: Vec<u8>, ephemeral: bool) -> (r: Result<
        String,
        ServerErrorCode,
    >)
        requires
            old(self).wf(),
            data@.len() <= WIRE_LEN_MAX,
        ensures
            final(self).wf(),
            r is Ok <==> !znode_has(old(self).nodes(), path@),
            r matches Err(c) ==> c == ServerErrorCode::NodeExists && *final(self) == *old(self),
            r matches Ok(s) ==> {
                &&& s@ == path@
                &&& final(self).nodes() == old(self).nodes() + seq![
                    ZNodeV { path: path@, data: data@, ephemeral, version: 0 },
                ]
            },
    {
        match self.find(&path) {
            Some(_) => Err(ServerErrorCode::NodeExists),
            None => {
                let ghost t0 = self.nodes();
                let out = path.clone();
                let node = ZNode { path, data, ephemeral, version: 0 };
                let ghost nv = node@;
                self.nodes.push(node);
                proof {
                    assert(self.nodes() =~= t0 + seq![nv]);
                    lemma_znode_lookup_append(t0, nv, nv.path);
                    lemma_tree_wf_append(t0, nv);
                }
                Ok(out)
            },
        }
    }

    /// Reads a node's bytes and stat; an absent path is the no-node
    /// code.
    pub fn get(&self, path: &String) -> (r: Result<(Vec<u8>, Stat), ServerErrorCode>)
        requires
            self.wf(),
        ensures
            (match znode_lookup(self.nodes(), path@) {
                Some(n) => r matches Ok((d, st)) && d@ == n.data && st == stat_of(n),
                None => r == Err::<(Vec<u8>, Stat), ServerErrorCode>(ServerErrorCode::NoNode),
            }),
    {
        match self.find(path) {
            Some(k) => {
                proof {
                    lemma_znode_lookup_at(self.nodes(), path@, k as int);
                }
                let node = &self.nodes[k];
                Ok((clone_bytes(&node.data), node_stat(node)))
            },
            None => {
                proof {
                    lemma_znode_lookup_absent(self.nodes(), path@);
                }
                Err(ServerErrorCode::NoNode)
            },
        }
    }

    /// Whether a node is at `path`: its stat, or the no-node code.
    pub fn exists_node(&self, path: &String) -> (r: Result<Stat, ServerErrorCode>)
        requires
            self.wf(),
        ensures
            (match znode_lookup(self.nodes(), path@) {
                Some(n) => r == Ok::<Stat, ServerErrorCode>(stat_of(n)),
                None => r == Err::<Stat, ServerErrorCode>(ServerErrorCode::NoNode),
            }),
    {
        match self.find(path) {
            Some(k) => {
                proof {
                    lemma_znode_lookup_at(self.nodes(), path@, k as int);
                }
                Ok(node_stat(&self.nodes[k]))
            },
            None => {
                proof {
                    lemma_znode_lookup_absent(self.nodes(), path@);
                }
                Err(ServerErrorCode::NoNode)
            },
        }
    }

    /// Sets a node's bytes, bumping its data version; the new stat comes
    /// back. An absent path is the no-node code.
    pub fn set(&mut self, path: &String, data: Vec<u8>) -> (r: Result<Stat, ServerErrorCode>)
        requires
            old(self).wf(),
            data@.len() <= WIRE_LEN_MAX,
            (match znode_lookup(old(self).nodes(), path@) {
                Some(n) => n.version < i32::MAX,
                None => true,
            }),
        ensures
            final(self).wf(),
            (match znode_lookup(old(self).nodes(), path@) {
                Some(n) => {
                    let updated = ZNodeV {
                        path: n.path,
                        data: data@,
                        ephemeral: n.ephemeral,
                        version: (n.version + 1) as i32,
                    };
                    &&& r == Ok::<Stat, ServerErrorCode>(stat_of(updated))
                    &&& final(self).nodes() == znode_remove(old(self).nodes(), path@) + seq![
                        updated,
                    ]
                },
                None => r == Err::<Stat, ServerErrorCode>(ServerErrorCode::NoNode) && *final(self)
                    == *old(self),
            }),
    {
        let ghost t0 = self.nodes();
        match self.find(path) {
            Some(k) => {
                proof {
                    lemma_znode_lookup_at(t0, path@, k as int);
                }
                let old_node = self.nodes.remove(k);
                let ghost mid = znodes_v(self.nodes@);
                let updated = ZNode {
                    path: old_node.path,
                    data,
                    ephemeral: old_node.ephemeral,
                    version: old_node.version + 1,
                };
                let ghost uv = updated@;
                let st = node_stat(&updated);
                self.nodes.push(updated);
                proof {
                    assert(mid =~= t0.remove(k as int)) by {
                        assert forall|j: int| 0 <= j < mid.len() implies mid[j] == t0.remove(
                            k as int,
                        )[j] by {
                            if j < k as int {
                                assert(mid[j] == t0[j]);
                            } else {
                                assert(mid[j] == t0[j + 1]);
                            }
                        }
                    }
                    lemma_znode_remove_at(t0, path@, k as int);
                    assert(self.nodes() =~= t0.remove(k as int) + seq![uv]);
                    lemma_tree_wf_remove_kth(t0, k as int);
                    lemma_znode_remove(t0, path@, path@);
                    assert(uv.path == path@);
                    lemma_tree_wf_append(t0.remove(k as int), uv);
                }
                Ok(st)
            },
            None => {
                proof {
                    lemma_znode_lookup_absent(t0, path@);
                }
                Err(ServerErrorCode::NoNode)
            },
        }
    }

    /// Deletes a node; an absent path is the no-node code.
    pub fn delete(&mut self, path: &String) -> (r: Result<(), ServerErrorCode>)
        requires
            old(self).wf(),
        ensures
            final(self).wf(),
            r is Ok <==> znode_has(old(self).nodes(), path@),
            r is Err ==> r == Err::<(), ServerErrorCode>(ServerErrorCode::NoNode) && *final(self)
                == *old(self),
            r is Ok ==> final(self).nodes() == znode_remove(old(self).nodes(), path@),
    {
        let ghost t0 = self.nodes();
        match self.find(path) {
            Some(k) => {
                let _ = self.nodes.remove(k);
                proof {
                    let mid = znodes_v(self.nodes@);
                    assert(mid =~= t0.remove(k as int)) by {
                        assert forall|j: int| 0 <= j < mid.len() implies mid[j] == t0.remove(
                            k as int,
                        )[j] by {
                            if j < k as int {
                                assert(mid[j] == t0[j]);
                            } else {
                                assert(mid[j] == t0[j + 1]);
                            }
                        }
                    }
                    lemma_znode_remove_at(t0, path@, k as int);
                    lemma_tree_wf_remove_kth(t0, k as int);
                }
                Ok(())
            },
            None => Err(ServerErrorCode::NoNode),
        }
    }

    /// The names of a node's direct children; an absent parent is the
    /// no-node code.
    #[verifier::loop_isolation(false)]
    pub fn children(&self, path: &String) -> (r: Result<Vec<String>, ServerErrorCode>)
        requires
            self.wf(),
        ensures
            znode_has(self.nodes(), path@) ==> (r matches Ok(l) && crate::resp::strs_v(l@)
                == child_names(self.nodes(), path@)),
            !znode_has(self.nodes(), path@) ==> r == Err::<Vec<String>, ServerErrorCode>(
                ServerErrorCode::NoNode,
            ),
    {
        if self.find(path).is_none() {
            return Err(ServerErrorCode::NoNode);
        }
        let ghost t = self.nodes();
        let root = String::from_str("/");
        proof {
            reveal_strlit("/");
            assert(root@ =~= seq!['/']);
        }
        let prefix: String = if path.eq(&root) {
            root
        } else {
            path.clone().concat("/")
        };
        proof {
            reveal_strlit("/");
            assert("/"@ =~= seq!['/']);
            if path@ != seq!['/'] {
                assert(prefix@ == path@ + seq!['/']);
            }
        }
        let pn = prefix.as_str().unicode_len();
        let mut out: Vec<String> = Vec::new();
        let mut k: usize = 0;
        proof {
            assert(t.take(0) =~= Seq::<ZNodeV>::empty());
            assert(crate::resp::strs_v(out@) =~= child_names(t.take(0), path@));
        }
        while k < self.nodes.len()
            invariant
                k <= self.nodes@.len(),
                crate::resp::strs_v(out@) == child_names(t.take(k as int), path@),
            decreases self.nodes@.len() - k,
        {
            proof {
                assert(t[k as int] == self.nodes@[k as int]@);
                lemma_tree_snoc(t, path@, k as int);
            }
            let node = &self.nodes[k];
            let qn = node.path.as_str().unicode_len();
            let mut is_child = false;
            if starts_with_str(&node.path, &prefix) && qn > pn {
                let mut m = pn;
                let mut clean = true;
                while m < qn
                    invariant
                        pn <= m <= qn,
                        qn == node.path@.len(),
                        clean == (forall|j: int| pn <= j < m ==> (#[trigger] node.path@[j]) != '/'),
                    decreases qn - m,
                {
                    if node.path.as_str().get_char(m) == '/' {
                        clean = false;
                    }
                    m += 1;
                }
                is_child = clean;
            }
            proof {
                assert(is_child == is_direct_child(path@, t[k as int].path)) by {
                    if path@ == seq!['/'] {
                        assert(prefix@ == seq!['/']);
                    }
                }
            }
            if is_child {
                let name = node.path.as_str().substring_char(pn, qn).to_owned();
                let ghost prev = crate::resp::strs_v(out@);
                out.push(name);
                proof {
                    assert(name@ =~= child_name(path@, t[k as int].path));
                    assert(crate::resp::strs_v(out@) =~= prev + seq![name@]);
                }
            }
            k += 1;
        }
        proof {
            assert(t.take(t.len() as int) =~= t);
        }
        Ok(out)
    }

    /// The paths of the ephemeral nodes under a prefix.
    #[verifier::loop_isolation(false)]
    pub fn ephemerals(&self, prefix: &String) -> (r: Vec<String>)
        requires
            self.wf(),
        ensures
            crate::resp::strs_v(r@) == eph_paths(self.nodes(), prefix@),
    {
        let ghost t = self.nodes();
        let mut out: Vec<String> = Vec::new();
        let mut k: usize = 0;
        proof {
            assert(t.take(0) =~= Seq::<ZNodeV>::empty());
            assert(crate::resp::strs_v(out@) =~= eph_paths(t.take(0), prefix@));
        }
        while k < self.nodes.len()
            invariant
                k <= self.nodes@.len(),
                crate::resp::strs_v(out@) == eph_paths(t.take(k as int), prefix@),
            decreases self.nodes@.len() - k,
        {
            proof {
                assert(t[k as int] == self.nodes@[k as int]@);
                lemma_tree_snoc(t, prefix@, k as int);
            }
            let node = &self.nodes[k];
            if node.ephemeral && starts_with_str(&node.path, prefix) {
                let ghost prev = crate::resp::strs_v(out@);
                out.push(node.path.clone());
                proof {
                    assert(crate::resp::strs_v(out@) =~= prev + seq![t[k as int].path]);
                }
            }
            k += 1;
        }
        proof {
            assert(t.take(t.len() as int) =~= t);
        }
        out
    }
}

/// A path found at `k` past a clean prefix is what lookup finds.
proof fn lemma_znode_lookup_at(t: Seq<ZNodeV>, p: Seq<char>, k: int)
    requires
        0 <= k < t.len(),
        t[k].path == p,
        forall|j: int| 0 <= j < k ==> (#[trigger] t[j]).path != p,
    ensures
        znode_lookup(t, p) == Some(t[k]),
    decreases k,
{
    if k == 0 {
    } else {
        let d = t.drop_first();
        assert(d[k - 1] == t[k]);
        assert forall|j: int| 0 <= j < k - 1 implies (#[trigger] d[j]).path != p by {
            assert(d[j] == t[j + 1]);
        }
        lemma_znode_lookup_at(d, p, k - 1);
    }
}

/// Under unique paths, removing the node at `k` removes the path.
proof fn lemma_znode_remove_at(t: Seq<ZNodeV>, p: Seq<char>, k: int)
    requires
        0 <= k < t.len(),
        t[k].path == p,
        forall|i: int, j: int|
            0 <= i < j < t.len() ==> (#[trigger] t[i]).path != (#[trigger] t[j]).path,
    ensures
        znode_remove(t, p) == t.remove(k),
    decreases k,
{
    if k == 0 {
        assert(znode_remove(t, p) == znode_remove(t.drop_first(), p));
        lemma_znode_remove_all_other(t.drop_first(), p);
        assert(t.remove(0) =~= t.drop_first());
    } else {
        let d = t.drop_first();
        assert(d[k - 1] == t[k]);
        assert forall|i: int, j: int| 0 <= i < j < d.len() implies (#[trigger] d[i]).path != (
        #[trigger] d[j]).path by {
            assert(d[i] == t[i + 1]);
            assert(d[j] == t[j + 1]);
        }
        lemma_znode_remove_at(d, p, k - 1);
        assert(t[0].path != p);
        assert(znode_remove(t, p) == seq![t[0]] + znode_remove(d, p));
        assert(seq![t[0]] + d.remove(k - 1) =~= t.remove(k));
    }
}

/// Removing a path that no node carries changes nothing.
proof fn lemma_znode_remove_all_other(t: Seq<ZNodeV>, p: Seq<char>)
    requires
        forall|j: int| 0 <= j < t.len() ==> (#[trigger] t[j]).path != p,
    ensures
        znode_remove(t, p) == t,
    decreases t.len(),
{
    if t.len() > 0 {
        let d = t.drop_first();
        assert forall|j: int| 0 <= j < d.len() implies (#[trigger] d[j]).path != p by {
            assert(d[j] == t[j + 1]);
        }
        lemma_znode_remove_all_other(d, p);
        assert(znode_remove(t, p) == seq![t[0]] + d);
        assert(seq![t[0]] + d =~= t);
    }
}

/// A tree stays well formed when a node at `k` leaves.
proof fn lemma_tree_wf_remove_kth(t: Seq<ZNodeV>, k: int)
    requires
        0 <= k < t.len(),
        tree_wf(t),
    ensures
        tree_wf(t.remove(k)),
{
    let r = t.remove(k);
    assert forall|i: int, j: int| 0 <= i < j < r.len() implies (#[trigger] r[i]).path != (
    #[trigger] r[j]).path by {
        let i0 = if i < k {
            i
        } else {
            i + 1
        };
        let j0 = if j < k {
            j
        } else {
            j + 1
        };
        assert(r[i] == t[i0]);
        assert(r[j] == t[j0]);
    }
    assert forall|i: int| 0 <= i < r.len() implies (#[trigger] r[i]).data.len() <= WIRE_LEN_MAX by {
        let i0 = if i < k {
            i
        } else {
            i + 1
        };
        assert(r[i] == t[i0]);
    }
}

/// A tree stays well formed when a node at a fresh path joins.
proof fn lemma_tree_wf_append(t: Seq<ZNodeV>, e: ZNodeV)
    requires
        tree_wf(t),
        !znode_has(t, e.path),
        e.data.len() <= WIRE_LEN_MAX,
    ensures
        tree_wf(t + seq![e]),
{
    lemma_znode_has_all(t, e.path);
    let r = t + seq![e];
    assert forall|i: int, j: int| 0 <= i < j < r.len() implies (#[trigger] r[i]).path != (
    #[trigger] r[j]).path by {
        if j < t.len() {
            assert(r[i] == t[i]);
            assert(r[j] == t[j]);
        } else {
            assert(r[i] == t[i]);
            assert(r[j] == e);
        }
    }
    assert forall|i: int| 0 <= i < r.len() implies (#[trigger] r[i]).data.len() <= WIRE_LEN_MAX by {
        if i < t.len() {
            assert(r[i] == t[i]);
        } else {
            assert(r[i] == e);
        }
    }
}

/// A path no lookup finds is on no node at all.
proof fn lemma_znode_has_all(t: Seq<ZNodeV>, p: Seq<char>)
    requires
        !znode_has(t, p),
    ensures
        forall|j: int| 0 <= j < t.len() ==> (#[trigger] t[j]).path != p,
    decreases t.len(),
{
    if t.len() > 0 {
        lemma_znode_has_all(t.drop_first(), p);
        assert forall|j: int| 0 <= j < t.len() implies (#[trigger] t[j]).path != p by {
            if j > 0 {
                assert(t.drop_first()[j - 1] == t[j]);
            }
        }
    }
}

/// A prefix that holds a path keeps holding it in any extension.
proof fn lemma_znode_has_extend(t: Seq<ZNodeV>, p: Seq<char>, k: int)
    requires
        0 <= k <= t.len(),
        znode_has(t.take(k), p),
    ensures
        znode_has(t, p),
    decreases t.len(),
{
    if t.len() > 0 && k > 0 {
        if t[0].path == p {
        } else {
            assert(t.take(k)[0] == t[0]);
            assert(t.take(k).drop_first() =~= t.drop_first().take(k - 1));
            lemma_znode_has_extend(t.drop_first(), p, k - 1);
        }
    }
}

} // verus!
