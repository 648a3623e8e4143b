//! The policy daemon: the GPU table, the mode, and the rules by which a mode
//! or a per-GPU override becomes block-list changes.
use vstd::prelude::*;
use vstd::string::StringExecFns;

use crate::maps::{pci_key_of_str, BlockError, BlockMaps};
use crate::node::{node_id_of, parse_node_id, CARD_NODE_PREFIX, RENDER_NODE_PREFIX};

verus! {

/// Name of the mode that blocks every GPU but the boot GPU.
pub const MODE_INTEGRATED: &'static str = "integrated";

/// Name of the mode that leaves every GPU usable.
pub const MODE_HYBRID: &'static str = "hybrid";

/// One GPU as discovery reports it; fixed for the life of the daemon.
pub struct Gpu {
    pub id: u32,
    pub name: String,
    pub pci_address: String,
    pub render_node: String,
    pub card_node: String,
    /// The GPU that firmware brought up at boot.
    pub is_default: bool,
}

/// The global policy.
#[derive(PartialEq, Eq, Structural, Clone, Copy, Debug)]
pub enum Mode {
    /// Every GPU but the boot GPU is blocked.
    Integrated,
    /// Every GPU is usable.
    Hybrid,
}

/// Which of a GPU's three identifiers an operation touched.
#[derive(PartialEq, Eq, Structural, Clone, Copy, Debug)]
pub enum Target {
    RenderNode,
    CardNode,
    Pci,
}

/// What was asked of the block list.
#[derive(PartialEq, Eq, Structural, Clone, Copy, Debug)]
pub enum Step {
    Block,
    Unblock,
    Lookup,
}

/// One block-list operation that failed while the others went on.
pub struct StepFailure {
    pub gpu_id: u32,
    pub target: Target,
    pub step: Step,
    pub error: BlockError,
}

/// Errors that a caller of the daemon sees; nothing is changed when one comes.
pub enum DaemonError {
    /// The mode string names no mode.
    UnknownMode(String),
    /// No GPU has this id.
    UnknownGpu(u32),
}

/// One line of the GPU listing: id, name, PCI address, render node, boot GPU,
/// blocked.
pub type GpuRow = (u32, String, String, String, bool, bool);

/// The mode that a name stands for.
pub open spec fn mode_of(s: Seq<char>) -> Option<Mode> {
    if s == MODE_INTEGRATED@ {
        Some(Mode::Integrated)
    } else if s == MODE_HYBRID@ {
        Some(Mode::Hybrid)
    } else {
        None
    }
}

pub open spec fn mode_name(m: Mode) -> Seq<char> {
    match m {
        Mode::Integrated => MODE_INTEGRATED@,
        Mode::Hybrid => MODE_HYBRID@,
    }
}

/// Whether a mode blocks the GPUs it governs.
pub open spec fn mode_blocks(m: Mode) -> bool {
    m == Mode::Integrated
}

pub open spec fn render_id(g: Gpu) -> Option<u32> {
    node_id_of(g.render_node@, RENDER_NODE_PREFIX@)
}

pub open spec fn card_id(g: Gpu) -> Option<u32> {
    node_id_of(g.card_node@, CARD_NODE_PREFIX@)
}

/// The device ids of a GPU's render and card nodes, where they parse.
pub open spec fn gpu_id_keys(g: Gpu) -> Set<u32> {
    Set::new(|x: u32| render_id(g) == Some(x) || card_id(g) == Some(x))
}

pub open spec fn gpu_pci_key(g: Gpu) -> Seq<u8> {
    pci_key_of_str(g.pci_address@)
}

/// A GPU is blocked when its PCI key or one of its node ids is listed.
pub open spec fn blocked_in(ids: Set<u32>, pcis: Set<Seq<u8>>, g: Gpu) -> bool {
    ||| pcis.contains(gpu_pci_key(g))
    ||| (render_id(g) is Some && ids.contains(render_id(g)->0))
    ||| (card_id(g) is Some && ids.contains(card_id(g)->0))
}

/// The node ids of the non-boot GPUs among the first `n`.
pub open spec fn policy_ids(gpus: Seq<Gpu>, n: int) -> Set<u32> {
    Set::new(
        |x: u32|
            exists|i: int|
                0 <= i < n && !(#[trigger] gpus[i]).is_default && gpu_id_keys(gpus[i]).contains(x),
    )
}

/// The PCI keys of the non-boot GPUs among the first `n`.
pub open spec fn policy_pcis(gpus: Seq<Gpu>, n: int) -> Set<Seq<u8>> {
    Set::new(
        |k: Seq<u8>|
            exists|i: int| 0 <= i < n && !(#[trigger] gpus[i]).is_default && gpu_pci_key(gpus[i]) == k,
    )
}

/// A recorded failure on a node id of a governed GPU that has `x` among its
/// ids: only such a failure can leave `x` out of step with the mode.
pub open spec fn id_blamed(gpus: Seq<Gpu>, fs: Seq<StepFailure>, x: u32) -> bool {
    exists|i: int, j: int|
        0 <= i < fs.len() && 0 <= j < gpus.len() && !gpus[j].is_default && (#[trigger] fs[i]).gpu_id
            == (#[trigger] gpus[j]).id && fs[i].target != Target::Pci && gpu_id_keys(gpus[j]).contains(x)
}

/// A recorded failure on the PCI address of a governed GPU whose key is `k`.
pub open spec fn pci_blamed(gpus: Seq<Gpu>, fs: Seq<StepFailure>, k: Seq<u8>) -> bool {
    exists|i: int, j: int|
        0 <= i < fs.len() && 0 <= j < gpus.len() && !gpus[j].is_default && (#[trigger] fs[i]).gpu_id
            == (#[trigger] gpus[j]).id && fs[i].target == Target::Pci && gpu_pci_key(gpus[j]) == k
}

/// No GPU is governed by the mode: every one is the boot GPU.
pub open spec fn governs_none(gpus: Seq<Gpu>) -> bool {
    forall|i: int| 0 <= i < gpus.len() ==> (#[trigger] gpus[i]).is_default
}

/// A list after `keys` are all inserted (`block`) or all removed.
pub open spec fn apply_keys<A>(s: Set<A>, keys: Set<A>, block: bool) -> Set<A> {
    if block {
        s.union(keys)
    } else {
        s.difference(keys)
    }
}

/// The id list after a mode is applied to `gpus`.
pub open spec fn ids_after_mode(ids: Set<u32>, gpus: Seq<Gpu>, m: Mode) -> Set<u32> {
    apply_keys(ids, policy_ids(gpus, gpus.len() as int), mode_blocks(m))
}

/// The PCI list after a mode is applied to `gpus`.
pub open spec fn pcis_after_mode(pcis: Set<Seq<u8>>, gpus: Seq<Gpu>, m: Mode) -> Set<Seq<u8>> {
    apply_keys(pcis, policy_pcis(gpus, gpus.len() as int), mode_blocks(m))
}

/// The first GPU with this id, if any.
pub open spec fn has_gpu(gpus: Seq<Gpu>, id: u32) -> bool {
    exists|i: int| 0 <= i < gpus.len() && (#[trigger] gpus[i]).id == id
}

/// A listing row shows this GPU, with `blocked` as its state.
pub open spec fn row_shows(row: GpuRow, g: Gpu, blocked: bool) -> bool {
    &&& row.0 == g.id
    &&& row.1@ == g.name@
    &&& row.2@ == g.pci_address@
    &&& row.3@ == g.render_node@
    &&& row.4 == g.is_default
    &&& row.5 == blocked
}

/// No GPU but the `i`th governed by the mode shares a node id or PCI key with it.
pub open spec fn shares_no_key(gpus: Seq<Gpu>, i: int) -> bool {
    forall|j: int|
        0 <= j < gpus.len() && !(#[trigger] gpus[j]).is_default ==> gpu_pci_key(gpus[j])
            != gpu_pci_key(gpus[i]) && gpu_id_keys(gpus[j]).disjoint(gpu_id_keys(gpus[i]))
}

/// After the integrated mode is applied with every operation succeeding,
/// each GPU but the boot GPU is blocked. The boot GPU stays unblocked if it
/// was unblocked before and no governed GPU shares a key with it.
pub proof fn lemma_integrated_blocks_non_default(ids: Set<u32>, pcis: Set<Seq<u8>>, gpus: Seq<Gpu>)
    ensures
        forall|i: int|
            0 <= i < gpus.len() && !(#[trigger] gpus[i]).is_default ==> blocked_in(
                ids_after_mode(ids, gpus, Mode::Integrated),
                pcis_after_mode(pcis, gpus, Mode::Integrated),
                gpus[i],
            ),
        forall|i: int|
            0 <= i < gpus.len() && (#[trigger] gpus[i]).is_default && !blocked_in(ids, pcis, gpus[i])
                && shares_no_key(gpus, i) ==> !blocked_in(
                ids_after_mode(ids, gpus, Mode::Integrated),
                pcis_after_mode(pcis, gpus, Mode::Integrated),
                gpus[i],
            ),
{
    let n = gpus.len() as int;
    assert forall|i: int| 0 <= i < gpus.len() && !(#[trigger] gpus[i]).is_default implies blocked_in(
        ids_after_mode(ids, gpus, Mode::Integrated),
        pcis_after_mode(pcis, gpus, Mode::Integrated),
        gpus[i],
    ) by {
        assert(policy_pcis(gpus, n).contains(gpu_pci_key(gpus[i])));
    }
    assert forall|i: int|
        0 <= i < gpus.len() && (#[trigger] gpus[i]).is_default && !blocked_in(ids, pcis, gpus[i])
            && shares_no_key(gpus, i) implies !blocked_in(
        ids_after_mode(ids, gpus, Mode::Integrated),
        pcis_after_mode(pcis, gpus, Mode::Integrated),
        gpus[i],
    ) by {
        let g = gpus[i];
        if policy_pcis(gpus, n).contains(gpu_pci_key(g)) {
            let j = choose|j: int| 0 <= j < n && !(#[trigger] gpus[j]).is_default && gpu_pci_key(gpus[j]) == gpu_pci_key(g);
            assert(gpu_pci_key(gpus[j]) != gpu_pci_key(g));
        }
        if render_id(g) is Some && policy_ids(gpus, n).contains(render_id(g)->0) {
            let x = render_id(g)->0;
            let j = choose|j: int| 0 <= j < n && !(#[trigger] gpus[j]).is_default && gpu_id_keys(gpus[j]).contains(x);
            assert(gpu_id_keys(g).contains(x));
            assert(gpu_id_keys(gpus[j]).disjoint(gpu_id_keys(g)));
        }
        if card_id(g) is Some && policy_ids(gpus, n).contains(card_id(g)->0) {
            let x = card_id(g)->0;
            let j = choose|j: int| 0 <= j < n && !(#[trigger] gpus[j]).is_default && gpu_id_keys(gpus[j]).contains(x);
            assert(gpu_id_keys(g).contains(x));
            assert(gpu_id_keys(gpus[j]).disjoint(gpu_id_keys(g)));
        }
    }
}

/// After the hybrid mode is applied with every operation succeeding, no GPU
/// but the boot GPU is blocked, whatever was blocked before; the boot GPU is
/// left as it was if it was unblocked.
pub proof fn lemma_hybrid_unblocks_all(ids: Set<u32>, pcis: Set<Seq<u8>>, gpus: Seq<Gpu>)
    ensures
        forall|i: int|
            0 <= i < gpus.len() && !(#[trigger] gpus[i]).is_default ==> !blocked_in(
                ids_after_mode(ids, gpus, Mode::Hybrid),
                pcis_after_mode(pcis, gpus, Mode::Hybrid),
                gpus[i],
            ),
        forall|i: int|
            0 <= i < gpus.len() && !blocked_in(ids, pcis, #[trigger] gpus[i]) ==> !blocked_in(
                ids_after_mode(ids, gpus, Mode::Hybrid),
                pcis_after_mode(pcis, gpus, Mode::Hybrid),
                gpus[i],
            ),
{
    let n = gpus.len() as int;
    assert forall|i: int| 0 <= i < gpus.len() && !(#[trigger] gpus[i]).is_default implies !blocked_in(
        ids_after_mode(ids, gpus, Mode::Hybrid),
        pcis_after_mode(pcis, gpus, Mode::Hybrid),
        gpus[i],
    ) by {
        let g = gpus[i];
        assert(policy_pcis(gpus, n).contains(gpu_pci_key(g)));
        if render_id(g) is Some {
            assert(gpu_id_keys(g).contains(render_id(g)->0));
            assert(policy_ids(gpus, n).contains(render_id(g)->0));
        }
        if card_id(g) is Some {
            assert(gpu_id_keys(g).contains(card_id(g)->0));
            assert(policy_ids(gpus, n).contains(card_id(g)->0));
        }
    }
}

/// Applying a mode a second time changes neither list: setting a mode twice
/// leaves the state that setting it once leaves.
pub proof fn lemma_set_mode_idempotent(ids: Set<u32>, pcis: Set<Seq<u8>>, gpus: Seq<Gpu>, m: Mode)
    ensures
        ids_after_mode(ids_after_mode(ids, gpus, m), gpus, m) == ids_after_mode(ids, gpus, m),
        pcis_after_mode(pcis_after_mode(pcis, gpus, m), gpus, m) == pcis_after_mode(pcis, gpus, m),
{
    assert(ids_after_mode(ids_after_mode(ids, gpus, m), gpus, m) =~= ids_after_mode(ids, gpus, m));
    assert(pcis_after_mode(pcis_after_mode(pcis, gpus, m), gpus, m) =~= pcis_after_mode(pcis, gpus, m));
}

/// The listing after the integrated mode was applied with every operation
/// succeeding: each row reads blocked exactly when it is not the boot GPU's,
/// given that each boot GPU was unblocked before and shares no key with a
/// governed GPU. `table` is the listing in GPU order and `rows` any
/// reordering of it.
pub proof fn lemma_integrated_listing(
    ids: Set<u32>,
    pcis: Set<Seq<u8>>,
    gpus: Seq<Gpu>,
    table: Seq<GpuRow>,
    rows: Seq<GpuRow>,
)
    requires
        table.len() == gpus.len(),
        rows.to_multiset() == table.to_multiset(),
        forall|i: int| 0 <= i < table.len() ==> #[trigger] row_shows(table[i], gpus[i], table[i].5),
        forall|i: int|
            0 <= i < table.len() ==> (#[trigger] table[i]).5 == blocked_in(
                ids_after_mode(ids, gpus, Mode::Integrated),
                pcis_after_mode(pcis, gpus, Mode::Integrated),
                gpus[i],
            ),
        forall|i: int|
            0 <= i < gpus.len() && (#[trigger] gpus[i]).is_default ==> !blocked_in(ids, pcis, gpus[i])
                && shares_no_key(gpus, i),
    ensures
        forall|k: int| 0 <= k < rows.len() ==> (#[trigger] rows[k]).5 == !rows[k].4,
{
    broadcast use vstd::seq_lib::to_multiset_contains;
    lemma_integrated_blocks_non_default(ids, pcis, gpus);
    assert forall|k: int| 0 <= k < rows.len() implies (#[trigger] rows[k]).5 == !rows[k].4 by {
        assert(rows.contains(rows[k]));
        assert(rows.to_multiset().count(rows[k]) > 0);
        assert(table.contains(rows[k]));
        let i = choose|i: int| 0 <= i < table.len() && table[i] == rows[k];
        assert(row_shows(table[i], gpus[i], table[i].5));
    }
}

impl Mode {
    /// The mode that `s` names: `"integrated"` or `"hybrid"`.
    pub fn parse(s: &str) -> (r: Option<Mode>)
        ensures
            r == mode_of(s@),
    {
        let owned = s.to_owned();
        if owned == String::from_str(MODE_INTEGRATED) {
            Some(Mode::Integrated)
        } else if owned == String::from_str(MODE_HYBRID) {
            Some(Mode::Hybrid)
        } else {
            None
        }
    }

    pub fn name(&self) -> (r: String)
        ensures
            r@ == mode_name(*self),
    {
        match self {
            Mode::Integrated => String::from_str(MODE_INTEGRATED),
            Mode::Hybrid => String::from_str(MODE_HYBRID),
        }
    }
}

/// The persisted mode if it names one, else hybrid.
pub open spec fn preferred_mode_of(persisted: Option<String>) -> Mode {
    match persisted {
        Some(s) => match mode_of(s@) {
            Some(p) => p,
            None => Mode::Hybrid,
        },
        None => Mode::Hybrid,
    }
}

/// The mode to restore at startup: the persisted one if it names a mode,
/// else hybrid.
pub fn preferred_mode(persisted: Option<String>) -> (m: Mode)
    ensures
        m == preferred_mode_of(persisted),
{
    match persisted {
        Some(s) => match Mode::parse(s.as_str()) {
            Some(p) => p,
            None => Mode::Hybrid,
        },
        None => Mode::Hybrid,
    }
}

/// Relies on slice::sort_by_key: the same rows, ascending by id.
#[verifier::external_body]
fn sort_rows_by_id(rows: &mut Vec<GpuRow>)
    ensures
        final(rows)@.to_multiset() == old(rows)@.to_multiset(),
        forall|i: int, j: int| 0 <= i < j < final(rows)@.len() ==> final(rows)@[i].0 <= final(rows)@[j].0,
{
    rows.sort_by_key(|row| row.0);
}

/// The owned state of the daemon: the mode last set, the GPU table, and the
/// block-list handle.
pub struct Daemon<B: BlockMaps> {
    pub mode: Mode,
    pub gpus: Vec<Gpu>,
    pub blocker: B,
}

/// The step that a block (`true`) or unblock (`false`) performs.
pub open spec fn direction(block: bool) -> Step {
    if block {
        Step::Block
    } else {
        Step::Unblock
    }
}

/// A failure of `step` on `target` is among the entries from index `from` on.
pub open spec fn recorded(fs: Seq<StepFailure>, from: int, target: Target, step: Step) -> bool {
    exists|i: int| 0 <= i && from <= i < fs.len() && (#[trigger] fs[i]).target == target && fs[i].step == step
}

/// `after` is `before` with at most `most` entries added, all about `gpu_id`
/// and `step`.
pub open spec fn appended(before: Seq<StepFailure>, after: Seq<StepFailure>, gpu_id: u32, step: Step, most: int) -> bool {
    &&& before.len() <= after.len() <= before.len() + most
    &&& after.subrange(0, before.len() as int) == before
    &&& forall|i: int| before.len() <= i < after.len() ==> (#[trigger] after[i]).gpu_id == gpu_id && after[i].step == step
}

/// Entries added after `before` with another step do not make a failure of
/// `step` appear.
pub proof fn lemma_recorded_prefix(before: Seq<StepFailure>, after: Seq<StepFailure>, from: int, target: Target, step: Step)
    requires
        before.len() <= after.len(),
        after.subrange(0, before.len() as int) == before,
        forall|i: int| before.len() <= i < after.len() ==> (#[trigger] after[i]).step != step,
    ensures
        recorded(after, from, target, step) ==> recorded(before, from, target, step),
{
    if recorded(after, from, target, step) {
        let i = choose|i: int| 0 <= i && from <= i < after.len() && (#[trigger] after[i]).target == target && after[i].step == step;
        assert(before[i] == after.subrange(0, before.len() as int)[i]);
    }
}

/// A failure found from index `from` on is found from the start too.
pub proof fn lemma_recorded_from(fs: Seq<StepFailure>, from: int, target: Target, step: Step)
    requires
        0 <= from,
    ensures
        recorded(fs, from, target, step) ==> recorded(fs, 0, target, step),
{
    if recorded(fs, from, target, step) {
        let i = choose|i: int| 0 <= i && from <= i < fs.len() && (#[trigger] fs[i]).target == target && fs[i].step == step;
        assert(fs[i].target == target);
    }
}

/// The step that a block (`true`) or unblock (`false`) performs.
pub fn step_of(block: bool) -> (s: Step)
    ensures
        s == direction(block),
{
    if block {
        Step::Block
    } else {
        Step::Unblock
    }
}

/// Records the outcome of one block-list operation: nothing on success, one
/// entry naming the GPU, the identifier and the step on failure. The value
/// of a success is handed back.
pub fn record_outcome<T>(result: Result<T, BlockError>, failures: &mut Vec<StepFailure>, gpu: &Gpu, target: Target, step: Step) -> (v: Option<T>)
    ensures
        result is Ok <==> final(failures)@ == old(failures)@,
        result matches Ok(t) ==> v == Some(t),
        result is Err ==> v is None,
        result is Err ==> final(failures)@.len() == old(failures)@.len() + 1,
        result is Err ==> final(failures)@.subrange(0, old(failures)@.len() as int) == old(failures)@,
        result is Err ==> final(failures)@.last().gpu_id == gpu.id,
        result is Err ==> final(failures)@.last().target == target,
        result is Err ==> final(failures)@.last().step == step,
{
    match result {
        Ok(t) => Some(t),
        Err(error) => {
            failures.push(StepFailure { gpu_id: gpu.id, target, step, error });
            assert(failures@.subrange(0, old(failures)@.len() as int) =~= old(failures)@);
            None
        },
    }
}

/// A GPU reads as blocked when any of its lookups succeeded and found its key.
pub fn combine_lookups(pci: &Result<bool, BlockError>, render: &Option<Result<bool, BlockError>>, card: &Option<Result<bool, BlockError>>) -> (r: bool)
    ensures
        r == (pci matches Ok(true) || render matches Some(Ok(true)) || card matches Some(Ok(true))),
{
    let p = match pci {
        Ok(b) => *b,
        Err(_) => false,
    };
    let rd = match render {
        Some(Ok(b)) => *b,
        _ => false,
    };
    let cd = match card {
        Some(Ok(b)) => *b,
        _ => false,
    };
    p || rd || cd
}

/// Blocks or unblocks a GPU's render id, card id and PCI address, each on its
/// own: a failure of one is recorded and the others still run. Every step
/// with no failure recorded has taken effect, and nothing but the GPU's own
/// keys is touched.
pub fn apply_gpu_block_policy<B: BlockMaps>(blocker: &mut B, gpu: &Gpu, block: bool, failures: &mut Vec<StepFailure>)
    ensures
        appended(old(failures)@, final(failures)@, gpu.id, direction(block), 3),
        forall|x: u32| !gpu_id_keys(*gpu).contains(x) ==> (#[trigger] final(blocker).blocked_ids().contains(x) <==> old(blocker).blocked_ids().contains(x)),
        forall|k: Seq<u8>| k != gpu_pci_key(*gpu) ==> (#[trigger] final(blocker).blocked_pcis().contains(k) <==> old(blocker).blocked_pcis().contains(k)),
        !recorded(final(failures)@, old(failures)@.len() as int, Target::Pci, direction(block)) ==> final(blocker).blocked_pcis().contains(gpu_pci_key(*gpu)) == block,
        render_id(*gpu) is Some && !recorded(final(failures)@, old(failures)@.len() as int, Target::RenderNode, direction(block))
            && !(card_id(*gpu) == render_id(*gpu) && recorded(final(failures)@, old(failures)@.len() as int, Target::CardNode, direction(block)))
            ==> final(blocker).blocked_ids().contains(render_id(*gpu)->0) == block,
        card_id(*gpu) is Some && !recorded(final(failures)@, old(failures)@.len() as int, Target::CardNode, direction(block))
            ==> final(blocker).blocked_ids().contains(card_id(*gpu)->0) == block,
        final(failures)@.len() == old(failures)@.len() ==> final(blocker).blocked_ids() == apply_keys(old(blocker).blocked_ids(), gpu_id_keys(*gpu), block),
        final(failures)@.len() == old(failures)@.len() ==> final(blocker).blocked_pcis() == apply_keys(old(blocker).blocked_pcis(), set![gpu_pci_key(*gpu)], block),
{
    let ghost ids0 = blocker.blocked_ids();
    let ghost pcis0 = blocker.blocked_pcis();
    let ghost f0 = failures@;
    let step = step_of(block);
    let render = parse_node_id(gpu.render_node.as_str(), RENDER_NODE_PREFIX);
    let ghost mut render_ok = true;
    if let Some(id) = render {
        let result = if block {
            blocker.block_id(id)
        } else {
            blocker.unblock_id(id)
        };
        proof {
            render_ok = result is Ok;
        }
        record_outcome(result, failures, gpu, Target::RenderNode, step);
    }
    let ghost ids1 = blocker.blocked_ids();
    let ghost f1 = failures@;
    let card = parse_node_id(gpu.card_node.as_str(), CARD_NODE_PREFIX);
    let ghost mut card_ok = true;
    if let Some(id) = card {
        let result = if block {
            blocker.block_id(id)
        } else {
            blocker.unblock_id(id)
        };
        proof {
            card_ok = result is Ok;
        }
        record_outcome(result, failures, gpu, Target::CardNode, step);
    }
    let ghost ids2 = blocker.blocked_ids();
    let ghost pcis2 = blocker.blocked_pcis();
    let ghost f2 = failures@;
    let pci_result = if block {
        blocker.block_pci(gpu.pci_address.as_str())
    } else {
        blocker.unblock_pci(gpu.pci_address.as_str())
    };
    let ghost pci_ok = pci_result is Ok;
    record_outcome(pci_result, failures, gpu, Target::Pci, step);
    proof {
        let f3 = failures@;
        let n0 = f0.len() as int;
        assert(f3.subrange(0, f2.len() as int) == f2);
        assert(f2.subrange(0, f1.len() as int) == f1);
        assert(f1.subrange(0, n0) == f0);
        assert forall|i: int| 0 <= i < f2.len() implies f3[i] == f2[i] by {
            assert(f3.subrange(0, f2.len() as int)[i] == f3[i]);
        }
        assert forall|i: int| 0 <= i < f1.len() implies f2[i] == f1[i] by {
            assert(f2.subrange(0, f1.len() as int)[i] == f2[i]);
        }
        assert(f3.subrange(0, n0) =~= f0) by {
            assert forall|i: int| 0 <= i < n0 implies f3[i] == f0[i] by {
                assert(f1.subrange(0, n0)[i] == f1[i]);
            }
        }
        if !render_ok {
            assert(f3[n0].target == Target::RenderNode && f3[n0].step == direction(block));
        }
        if !card_ok {
            assert(f3[f1.len() as int].target == Target::CardNode && f3[f1.len() as int].step == direction(block));
        }
        if !pci_ok {
            assert(f3[f2.len() as int].target == Target::Pci && f3[f2.len() as int].step == direction(block));
        }
        if failures@.len() == f0.len() {
            assert(blocker.blocked_ids() =~= apply_keys(ids0, gpu_id_keys(*gpu), block));
            assert(blocker.blocked_pcis() =~= apply_keys(pcis0, set![gpu_pci_key(*gpu)], block));
        }
    }
}

/// Whether the lists block a GPU, by its PCI key, its render id and its card
/// id: true when a lookup that succeeded found its key. A failed lookup is
/// recorded and counts as not listed.
pub fn is_gpu_blocked<B: BlockMaps>(blocker: &mut B, gpu: &Gpu, failures: &mut Vec<StepFailure>) -> (r: bool)
    ensures
        final(blocker).blocked_ids() == old(blocker).blocked_ids(),
        final(blocker).blocked_pcis() == old(blocker).blocked_pcis(),
        appended(old(failures)@, final(failures)@, gpu.id, Step::Lookup, 3),
        r ==> blocked_in(old(blocker).blocked_ids(), old(blocker).blocked_pcis(), *gpu),
        !recorded(final(failures)@, old(failures)@.len() as int, Target::Pci, Step::Lookup)
            && old(blocker).blocked_pcis().contains(gpu_pci_key(*gpu)) ==> r,
        render_id(*gpu) is Some && !recorded(final(failures)@, old(failures)@.len() as int, Target::RenderNode, Step::Lookup)
            && old(blocker).blocked_ids().contains(render_id(*gpu)->0) ==> r,
        card_id(*gpu) is Some && !recorded(final(failures)@, old(failures)@.len() as int, Target::CardNode, Step::Lookup)
            && old(blocker).blocked_ids().contains(card_id(*gpu)->0) ==> r,
        final(failures)@.len() == old(failures)@.len() ==> r == blocked_in(old(blocker).blocked_ids(), old(blocker).blocked_pcis(), *gpu),
{
    let ghost f0 = failures@;
    let pci = blocker.is_pci_blocked(gpu.pci_address.as_str());
    let render = match parse_node_id(gpu.render_node.as_str(), RENDER_NODE_PREFIX) {
        Some(id) => Some(blocker.is_id_blocked(id)),
        None => None,
    };
    let card = match parse_node_id(gpu.card_node.as_str(), CARD_NODE_PREFIX) {
        Some(id) => Some(blocker.is_id_blocked(id)),
        None => None,
    };
    let r = combine_lookups(&pci, &render, &card);
    let ghost pci_ok = pci is Ok;
    let ghost render_err = render matches Some(Err(_));
    let ghost card_err = card matches Some(Err(_));
    record_outcome(pci, failures, gpu, Target::Pci, Step::Lookup);
    let ghost f1 = failures@;
    if let Some(res) = render {
        record_outcome(res, failures, gpu, Target::RenderNode, Step::Lookup);
    }
    let ghost f2 = failures@;
    if let Some(res) = card {
        record_outcome(res, failures, gpu, Target::CardNode, Step::Lookup);
    }
    proof {
        let f3 = failures@;
        let n0 = f0.len() as int;
        assert forall|i: int| 0 <= i < f2.len() implies f3[i] == f2[i] by {
            assert(f3.subrange(0, f2.len() as int)[i] == f3[i]);
        }
        assert forall|i: int| 0 <= i < f1.len() implies f2[i] == f1[i] by {
            assert(f2.subrange(0, f1.len() as int)[i] == f2[i]);
        }
        assert(f3.subrange(0, n0) =~= f0) by {
            assert forall|i: int| 0 <= i < n0 implies f3[i] == f0[i] by {
                assert(f1.subrange(0, n0)[i] == f1[i]);
            }
        }
        if !pci_ok {
            assert(f3[n0].target == Target::Pci && f3[n0].step == Step::Lookup);
        }
        if render_err {
            assert(f3[f1.len() as int].target == Target::RenderNode && f3[f1.len() as int].step == Step::Lookup);
        }
        if card_err {
            assert(f3[f2.len() as int].target == Target::CardNode && f3[f2.len() as int].step == Step::Lookup);
        }
    }
    r
}

impl<B: BlockMaps> Daemon<B> {
    /// The daemon over a discovered GPU table and a block-list handle, with
    /// `initial_mode` as its mode.
    pub fn new(initial_mode: Mode, gpus: Vec<Gpu>, blocker: B) -> (d: Daemon<B>)
        ensures
            d.mode == initial_mode,
            d.gpus == gpus,
            d.blocker == blocker,
    {
        Daemon { mode: initial_mode, gpus, blocker }
    }

    /// The mode the hardware is in at boot: the kernel maps start empty, so
    /// nothing is blocked.
    pub fn get_current_hardware_mode(&self) -> (m: Mode)
        ensures
            m == Mode::Hybrid,
    {
        Mode::Hybrid
    }

    /// The index of the first GPU with this id.
    pub fn gpu_by_id(&self, id: u32) -> (r: Option<usize>)
        ensures
            r is None <==> !has_gpu(self.gpus@, id),
            r is Some ==> r->0 < self.gpus@.len() && self.gpus@[r->0 as int].id == id,
    {
        let mut i: usize = 0;
        while i < self.gpus.len()
            invariant
                i <= self.gpus@.len(),
                forall|j: int| 0 <= j < i ==> self.gpus@[j].id != id,
            decreases self.gpus@.len() - i,
        {
            if self.gpus[i].id == id {
                return Some(i);
            }
            i = i + 1;
        }
        None
    }

    /// Applies a mode to every GPU but the boot GPU, each identifier on its
    /// own; returns the operations that failed.
    fn apply_mode(&mut self, mode: Mode) -> (failures: Vec<StepFailure>)
        ensures
            final(self).mode == old(self).mode,
            final(self).gpus == old(self).gpus,
            forall|x: u32| !policy_ids(old(self).gpus@, old(self).gpus@.len() as int).contains(x) ==> (
                #[trigger] final(self).blocker.blocked_ids().contains(x) <==> old(self).blocker.blocked_ids().contains(x)),
            forall|k: Seq<u8>| !policy_pcis(old(self).gpus@, old(self).gpus@.len() as int).contains(k) ==> (
                #[trigger] final(self).blocker.blocked_pcis().contains(k) <==> old(self).blocker.blocked_pcis().contains(k)),
            governs_none(old(self).gpus@) ==> failures@.len() == 0,
            forall|x: u32| policy_ids(old(self).gpus@, old(self).gpus@.len() as int).contains(x) && !id_blamed(old(self).gpus@, failures@, x)
                ==> #[trigger] final(self).blocker.blocked_ids().contains(x) == mode_blocks(mode),
            forall|k: Seq<u8>| policy_pcis(old(self).gpus@, old(self).gpus@.len() as int).contains(k) && !pci_blamed(old(self).gpus@, failures@, k)
                ==> #[trigger] final(self).blocker.blocked_pcis().contains(k) == mode_blocks(mode),
            failures@.len() == 0 ==> final(self).blocker.blocked_ids() == ids_after_mode(
                old(self).blocker.blocked_ids(),
                old(self).gpus@,
                mode,
            ),
            failures@.len() == 0 ==> final(self).blocker.blocked_pcis() == pcis_after_mode(
                old(self).blocker.blocked_pcis(),
                old(self).gpus@,
                mode,
            ),
    {
        let block = mode == Mode::Integrated;
        let mut failures: Vec<StepFailure> = Vec::new();
        let ghost ids0 = self.blocker.blocked_ids();
        let ghost pcis0 = self.blocker.blocked_pcis();
        let mut i: usize = 0;
        assert(policy_ids(self.gpus@, 0) =~= Set::<u32>::empty());
        assert(policy_pcis(self.gpus@, 0) =~= Set::<Seq<u8>>::empty());
        assert(apply_keys(ids0, Set::<u32>::empty(), block) =~= ids0);
        assert(apply_keys(pcis0, Set::<Seq<u8>>::empty(), block) =~= pcis0);
        while i < self.gpus.len()
            invariant
                i <= self.gpus@.len(),
                self.mode == old(self).mode,
                self.gpus == old(self).gpus,
                block == mode_blocks(mode),
                forall|x: u32| !policy_ids(self.gpus@, i as int).contains(x) ==> (
                    #[trigger] self.blocker.blocked_ids().contains(x) <==> ids0.contains(x)),
                forall|k: Seq<u8>| !policy_pcis(self.gpus@, i as int).contains(k) ==> (
                    #[trigger] self.blocker.blocked_pcis().contains(k) <==> pcis0.contains(k)),
                (forall|j: int| 0 <= j < i ==> (#[trigger] self.gpus@[j]).is_default) ==> failures@.len() == 0,
                forall|x: u32| policy_ids(self.gpus@, i as int).contains(x) && !id_blamed(self.gpus@, failures@, x)
                    ==> #[trigger] self.blocker.blocked_ids().contains(x) == block,
                forall|k: Seq<u8>| policy_pcis(self.gpus@, i as int).contains(k) && !pci_blamed(self.gpus@, failures@, k)
                    ==> #[trigger] self.blocker.blocked_pcis().contains(k) == block,
                ids0 == old(self).blocker.blocked_ids(),
                pcis0 == old(self).blocker.blocked_pcis(),
                failures@.len() == 0 ==> self.blocker.blocked_ids() == apply_keys(
                    ids0,
                    policy_ids(self.gpus@, i as int),
                    block,
                ),
                failures@.len() == 0 ==> self.blocker.blocked_pcis() == apply_keys(
                    pcis0,
                    policy_pcis(self.gpus@, i as int),
                    block,
                ),
            decreases self.gpus@.len() - i,
        {
            let ghost ids_i = self.blocker.blocked_ids();
            let ghost pcis_i = self.blocker.blocked_pcis();
            let ghost n_i = failures@.len();
            let ghost f_i = failures@;
            if !self.gpus[i].is_default {
                apply_gpu_block_policy(&mut self.blocker, &self.gpus[i], block, &mut failures);
            }
            proof {
                let g = self.gpus@[i as int];
                let gs = self.gpus@;
                let fs = failures@;
                assert forall|ii: int| 0 <= ii < f_i.len() implies fs[ii] == f_i[ii] by {
                    if !g.is_default {
                        assert(fs.subrange(0, f_i.len() as int)[ii] == fs[ii]);
                    }
                }
                assert forall|x: u32| policy_ids(gs, i + 1).contains(x) && !id_blamed(gs, fs, x)
                    implies #[trigger] self.blocker.blocked_ids().contains(x) == block by {
                    if id_blamed(gs, f_i, x) {
                        let (ii, j) = choose|ii: int, j: int|
                            0 <= ii < f_i.len() && 0 <= j < gs.len() && !gs[j].is_default && (#[trigger] f_i[ii]).gpu_id
                                == (#[trigger] gs[j]).id && f_i[ii].target != Target::Pci && gpu_id_keys(gs[j]).contains(x);
                        assert(fs[ii] == f_i[ii]);
                        assert(id_blamed(gs, fs, x));
                    }
                    if !g.is_default && gpu_id_keys(g).contains(x) {
                        assert forall|ii: int| f_i.len() <= ii < fs.len() implies (#[trigger] fs[ii]).target == Target::Pci by {
                            assert(fs[ii].gpu_id == gs[i as int].id);
                            if fs[ii].target != Target::Pci {
                                assert(id_blamed(gs, fs, x));
                            }
                        }
                        if recorded(fs, f_i.len() as int, Target::RenderNode, direction(block)) {
                            let ii = choose|ii: int| 0 <= ii && f_i.len() <= ii < fs.len() && (#[trigger] fs[ii]).target == Target::RenderNode && fs[ii].step == direction(block);
                            assert(fs[ii].target == Target::Pci);
                        }
                        if recorded(fs, f_i.len() as int, Target::CardNode, direction(block)) {
                            let ii = choose|ii: int| 0 <= ii && f_i.len() <= ii < fs.len() && (#[trigger] fs[ii]).target == Target::CardNode && fs[ii].step == direction(block);
                            assert(fs[ii].target == Target::Pci);
                        }
                    } else {
                        let j = choose|j: int| 0 <= j < i + 1 && !(#[trigger] gs[j]).is_default && gpu_id_keys(gs[j]).contains(x);
                        assert(j != i);
                        assert(policy_ids(gs, i as int).contains(x));
                    }
                }
                assert forall|k: Seq<u8>| policy_pcis(gs, i + 1).contains(k) && !pci_blamed(gs, fs, k)
                    implies #[trigger] self.blocker.blocked_pcis().contains(k) == block by {
                    if pci_blamed(gs, f_i, k) {
                        let (ii, j) = choose|ii: int, j: int|
                            0 <= ii < f_i.len() && 0 <= j < gs.len() && !gs[j].is_default && (#[trigger] f_i[ii]).gpu_id
                                == (#[trigger] gs[j]).id && f_i[ii].target == Target::Pci && gpu_pci_key(gs[j]) == k;
                        assert(fs[ii] == f_i[ii]);
                        assert(pci_blamed(gs, fs, k));
                    }
                    if !g.is_default && gpu_pci_key(g) == k {
                        if recorded(fs, f_i.len() as int, Target::Pci, direction(block)) {
                            let ii = choose|ii: int| 0 <= ii && f_i.len() <= ii < fs.len() && (#[trigger] fs[ii]).target == Target::Pci && fs[ii].step == direction(block);
                            assert(fs[ii].gpu_id == gs[i as int].id);
                            assert(pci_blamed(gs, fs, k));
                        }
                    } else {
                        let j = choose|j: int| 0 <= j < i + 1 && !(#[trigger] gs[j]).is_default && gpu_pci_key(gs[j]) == k;
                        assert(j != i);
                        assert(policy_pcis(gs, i as int).contains(k));
                    }
                }
                assert forall|x: u32| !policy_ids(gs, i + 1).contains(x) implies (
                    #[trigger] self.blocker.blocked_ids().contains(x) <==> ids0.contains(x)) by {
                    if policy_ids(gs, i as int).contains(x) {
                        let j = choose|j: int| 0 <= j < i && !(#[trigger] gs[j]).is_default && gpu_id_keys(gs[j]).contains(x);
                        assert(policy_ids(gs, i + 1).contains(x));
                    }
                    if !g.is_default && gpu_id_keys(g).contains(x) {
                        assert(policy_ids(gs, i + 1).contains(x));
                    }
                }
                assert forall|k: Seq<u8>| !policy_pcis(gs, i + 1).contains(k) implies (
                    #[trigger] self.blocker.blocked_pcis().contains(k) <==> pcis0.contains(k)) by {
                    if policy_pcis(gs, i as int).contains(k) {
                        let j = choose|j: int| 0 <= j < i && !(#[trigger] gs[j]).is_default && gpu_pci_key(gs[j]) == k;
                        assert(policy_pcis(gs, i + 1).contains(k));
                    }
                    if !g.is_default && gpu_pci_key(g) == k {
                        assert(policy_pcis(gs, i + 1).contains(k));
                    }
                }
                if forall|j: int| 0 <= j < i + 1 ==> (#[trigger] gs[j]).is_default {
                    assert(g.is_default);
                    assert(forall|j: int| 0 <= j < i ==> (#[trigger] gs[j]).is_default);
                }
                if failures@.len() == 0 {
                    assert(n_i == 0);
                    if g.is_default {
                        assert(policy_ids(self.gpus@, i + 1) =~= policy_ids(self.gpus@, i as int));
                        assert(policy_pcis(self.gpus@, i + 1) =~= policy_pcis(self.gpus@, i as int));
                    } else {
                        assert(policy_ids(self.gpus@, i + 1) =~= policy_ids(self.gpus@, i as int).union(gpu_id_keys(g)));
                        assert(policy_pcis(self.gpus@, i + 1) =~= policy_pcis(self.gpus@, i as int).union(set![gpu_pci_key(g)]));
                        assert(self.blocker.blocked_ids() =~= apply_keys(ids0, policy_ids(self.gpus@, i + 1), block));
                        assert(self.blocker.blocked_pcis() =~= apply_keys(pcis0, policy_pcis(self.gpus@, i + 1), block));
                    }
                }
            }
            i = i + 1;
        }
        failures
    }

    /// Sets the mode: for `"integrated"` every GPU but the boot GPU is blocked
    /// by render id, card id and PCI address; for `"hybrid"` the same are
    /// unblocked. Each operation stands alone, and the ones that failed are
    /// returned. An unknown name changes nothing.
    pub fn set_mode(&mut self, mode: String) -> (r: Result<Vec<StepFailure>, DaemonError>)
        ensures
            r is Err <==> mode_of(mode@) is None,
            r is Err ==> *final(self) == *old(self),
            r matches Err(e) ==> e matches DaemonError::UnknownMode(s) && s@ == mode@,
            r is Ok ==> final(self).mode == mode_of(mode@)->0,
            r is Ok ==> final(self).gpus == old(self).gpus,
            r is Ok ==> forall|x: u32| !policy_ids(old(self).gpus@, old(self).gpus@.len() as int).contains(x) ==> (
                #[trigger] final(self).blocker.blocked_ids().contains(x) <==> old(self).blocker.blocked_ids().contains(x)),
            r is Ok ==> forall|k: Seq<u8>| !policy_pcis(old(self).gpus@, old(self).gpus@.len() as int).contains(k) ==> (
                #[trigger] final(self).blocker.blocked_pcis().contains(k) <==> old(self).blocker.blocked_pcis().contains(k)),
            r is Ok && governs_none(old(self).gpus@) ==> r->Ok_0@.len() == 0,
            r is Ok ==> forall|x: u32| policy_ids(old(self).gpus@, old(self).gpus@.len() as int).contains(x)
                && !id_blamed(old(self).gpus@, r->Ok_0@, x) ==> #[trigger] final(self).blocker.blocked_ids().contains(x)
                == mode_blocks(mode_of(mode@)->0),
            r is Ok ==> forall|k: Seq<u8>| policy_pcis(old(self).gpus@, old(self).gpus@.len() as int).contains(k)
                && !pci_blamed(old(self).gpus@, r->Ok_0@, k) ==> #[trigger] final(self).blocker.blocked_pcis().contains(k)
                == mode_blocks(mode_of(mode@)->0),
            r matches Ok(f) && f@.len() == 0 ==> final(self).blocker.blocked_ids() == ids_after_mode(
                old(self).blocker.blocked_ids(),
                old(self).gpus@,
                mode_of(mode@)->0,
            ),
            r matches Ok(f) && f@.len() == 0 ==> final(self).blocker.blocked_pcis() == pcis_after_mode(
                old(self).blocker.blocked_pcis(),
                old(self).gpus@,
                mode_of(mode@)->0,
            ),
    {
        let target = match Mode::parse(mode.as_str()) {
            Some(m) => m,
            None => return Err(DaemonError::UnknownMode(mode)),
        };
        let failures = self.apply_mode(target);
        self.mode = target;
        Ok(failures)
    }

    /// The name of the mode last set.
    pub fn get_mode(&self) -> (r: String)
        ensures
            r@ == mode_name(self.mode),
    {
        self.mode.name()
    }

    /// The supported mode names, in a fixed order.
    pub fn list_mode(&self) -> (r: Vec<String>)
        ensures
            r@.len() == 2,
            r@[0]@ == MODE_INTEGRATED@,
            r@[1]@ == MODE_HYBRID@,
    {
        let mut r: Vec<String> = Vec::new();
        r.push(String::from_str(MODE_INTEGRATED));
        r.push(String::from_str(MODE_HYBRID));
        r
    }

    /// One row per GPU, in table order, with its observed block state; the
    /// lookups that failed are returned beside the rows.
    pub fn list_gpu_rows(&mut self) -> (r: (Vec<GpuRow>, Vec<StepFailure>))
        ensures
            final(self).mode == old(self).mode,
            final(self).gpus == old(self).gpus,
            final(self).blocker.blocked_ids() == old(self).blocker.blocked_ids(),
            final(self).blocker.blocked_pcis() == old(self).blocker.blocked_pcis(),
            r.0@.len() == old(self).gpus@.len(),
            forall|i: int| 0 <= i < r.0@.len() ==> #[trigger] row_shows(r.0@[i], old(self).gpus@[i], r.0@[i].5),
            forall|i: int| 0 <= i < r.0@.len() && (#[trigger] r.0@[i]).5 ==> blocked_in(
                old(self).blocker.blocked_ids(),
                old(self).blocker.blocked_pcis(),
                old(self).gpus@[i],
            ),
            r.1@.len() == 0 ==> forall|i: int| 0 <= i < r.0@.len() ==> (#[trigger] r.0@[i]).5 == blocked_in(
                old(self).blocker.blocked_ids(),
                old(self).blocker.blocked_pcis(),
                old(self).gpus@[i],
            ),
    {
        let mut rows: Vec<GpuRow> = Vec::new();
        let mut failures: Vec<StepFailure> = Vec::new();
        let ghost ids = self.blocker.blocked_ids();
        let ghost pcis = self.blocker.blocked_pcis();
        let mut i: usize = 0;
        while i < self.gpus.len()
            invariant
                i <= self.gpus@.len(),
                rows@.len() == i,
                self.mode == old(self).mode,
                self.gpus == old(self).gpus,
                self.blocker.blocked_ids() == ids,
                self.blocker.blocked_pcis() == pcis,
                ids == old(self).blocker.blocked_ids(),
                pcis == old(self).blocker.blocked_pcis(),
                forall|j: int| 0 <= j < i ==> #[trigger] row_shows(rows@[j], self.gpus@[j], rows@[j].5),
                forall|j: int| 0 <= j < i && (#[trigger] rows@[j]).5 ==> blocked_in(ids, pcis, self.gpus@[j]),
                failures@.len() == 0 ==> forall|j: int| 0 <= j < i ==> (#[trigger] rows@[j]).5 == blocked_in(ids, pcis, self.gpus@[j]),
            decreases self.gpus@.len() - i,
        {
            let ghost n_i = failures@.len();
            let blocked = is_gpu_blocked(&mut self.blocker, &self.gpus[i], &mut failures);
            let gpu = &self.gpus[i];
            rows.push((
                gpu.id,
                gpu.name.clone(),
                gpu.pci_address.clone(),
                gpu.render_node.clone(),
                gpu.is_default,
                blocked,
            ));
            proof {
                assert(row_shows(rows@[i as int], self.gpus@[i as int], rows@[i as int].5));
                if failures@.len() == 0 {
                    assert(n_i == 0);
                }
            }
            i = i + 1;
        }
        (rows, failures)
    }

    /// The GPU listing, ascending by id: the rows of `list_gpu_rows`,
    /// reordered.
    pub fn list_gpus(&mut self) -> (r: (Vec<GpuRow>, Vec<StepFailure>))
        ensures
            final(self).mode == old(self).mode,
            final(self).gpus == old(self).gpus,
            final(self).blocker.blocked_ids() == old(self).blocker.blocked_ids(),
            final(self).blocker.blocked_pcis() == old(self).blocker.blocked_pcis(),
            forall|i: int, j: int| 0 <= i < j < r.0@.len() ==> r.0@[i].0 <= r.0@[j].0,
            exists|table: Seq<GpuRow>|
                {
                    &&& table.len() == old(self).gpus@.len()
                    &&& r.0@.to_multiset() == #[trigger] table.to_multiset()
                    &&& forall|i: int| 0 <= i < table.len() ==> #[trigger] row_shows(table[i], old(self).gpus@[i], table[i].5)
                    &&& forall|i: int| 0 <= i < table.len() && (#[trigger] table[i]).5 ==> blocked_in(
                        old(self).blocker.blocked_ids(),
                        old(self).blocker.blocked_pcis(),
                        old(self).gpus@[i],
                    )
                    &&& r.1@.len() == 0 ==> forall|i: int| 0 <= i < table.len() ==> (#[trigger] table[i]).5 == blocked_in(
                        old(self).blocker.blocked_ids(),
                        old(self).blocker.blocked_pcis(),
                        old(self).gpus@[i],
                    )
                },
    {
        let (mut rows, failures) = self.list_gpu_rows();
        let ghost table = rows@;
        sort_rows_by_id(&mut rows);
        assert(rows@.to_multiset() == table.to_multiset());
        (rows, failures)
    }

    /// Blocks or unblocks one GPU's three identifiers, whatever the mode and
    /// even for the boot GPU, then reads back its state. An unknown id changes
    /// nothing.
    pub fn set_gpu_block(&mut self, gpu_id: u32, blocked: bool) -> (r: Result<(bool, Vec<StepFailure>), DaemonError>)
        ensures
            r is Err <==> !has_gpu(old(self).gpus@, gpu_id),
            r is Err ==> *final(self) == *old(self),
            r matches Err(e) ==> e == DaemonError::UnknownGpu(gpu_id),
            final(self).mode == old(self).mode,
            final(self).gpus == old(self).gpus,
            r matches Ok((effective, f)) ==> exists|i: int|
                {
                    &&& 0 <= i < old(self).gpus@.len()
                    &&& (#[trigger] old(self).gpus@[i]).id == gpu_id
                    &&& (effective ==> blocked_in(
                        final(self).blocker.blocked_ids(),
                        final(self).blocker.blocked_pcis(),
                        old(self).gpus@[i],
                    ))
                    &&& forall|x: u32| !gpu_id_keys(old(self).gpus@[i]).contains(x) ==> (
                        #[trigger] final(self).blocker.blocked_ids().contains(x) <==> old(self).blocker.blocked_ids().contains(x))
                    &&& forall|k: Seq<u8>| k != gpu_pci_key(old(self).gpus@[i]) ==> (
                        #[trigger] final(self).blocker.blocked_pcis().contains(k) <==> old(self).blocker.blocked_pcis().contains(k))
                    &&& !recorded(f@, 0, Target::Pci, direction(blocked)) ==> final(self).blocker.blocked_pcis().contains(
                        gpu_pci_key(old(self).gpus@[i]),
                    ) == blocked
                    &&& (render_id(old(self).gpus@[i]) is Some && !recorded(f@, 0, Target::RenderNode, direction(blocked))
                        && !(card_id(old(self).gpus@[i]) == render_id(old(self).gpus@[i]) && recorded(f@, 0, Target::CardNode, direction(blocked))))
                        ==> final(self).blocker.blocked_ids().contains(render_id(old(self).gpus@[i])->0) == blocked
                    &&& (card_id(old(self).gpus@[i]) is Some && !recorded(f@, 0, Target::CardNode, direction(blocked)))
                        ==> final(self).blocker.blocked_ids().contains(card_id(old(self).gpus@[i])->0) == blocked
                    &&& (!recorded(f@, 0, Target::Pci, Step::Lookup) && !recorded(f@, 0, Target::RenderNode, Step::Lookup)
                        && !recorded(f@, 0, Target::CardNode, Step::Lookup)) ==> effective == blocked_in(
                        final(self).blocker.blocked_ids(),
                        final(self).blocker.blocked_pcis(),
                        old(self).gpus@[i],
                    )
                    &&& f@.len() == 0 ==> final(self).blocker.blocked_ids() == apply_keys(
                        old(self).blocker.blocked_ids(),
                        gpu_id_keys(old(self).gpus@[i]),
                        blocked,
                    )
                    &&& f@.len() == 0 ==> final(self).blocker.blocked_pcis() == apply_keys(
                        old(self).blocker.blocked_pcis(),
                        set![gpu_pci_key(old(self).gpus@[i])],
                        blocked,
                    )
                    &&& f@.len() == 0 ==> effective == blocked_in(
                        final(self).blocker.blocked_ids(),
                        final(self).blocker.blocked_pcis(),
                        old(self).gpus@[i],
                    )
                },
    {
        let idx = match self.gpu_by_id(gpu_id) {
            Some(i) => i,
            None => return Err(DaemonError::UnknownGpu(gpu_id)),
        };
        let mut failures: Vec<StepFailure> = Vec::new();
        apply_gpu_block_policy(&mut self.blocker, &self.gpus[idx], blocked, &mut failures);
        let ghost n = failures@.len();
        let ghost mid = failures@;
        let effective = is_gpu_blocked(&mut self.blocker, &self.gpus[idx], &mut failures);
        proof {
            assert(failures@.len() == 0 ==> n == 0);
            let fs = failures@;
            assert forall|i: int| mid.len() <= i < fs.len() implies (#[trigger] fs[i]).step != direction(blocked) by {}
            lemma_recorded_prefix(mid, fs, 0, Target::Pci, direction(blocked));
            lemma_recorded_prefix(mid, fs, 0, Target::RenderNode, direction(blocked));
            lemma_recorded_prefix(mid, fs, 0, Target::CardNode, direction(blocked));
            lemma_recorded_from(fs, n as int, Target::Pci, Step::Lookup);
            lemma_recorded_from(fs, n as int, Target::RenderNode, Step::Lookup);
            lemma_recorded_from(fs, n as int, Target::CardNode, Step::Lookup);
        }
        Ok((effective, failures))
    }

    /// Starts the daemon: the mode is the persisted one (hybrid if there is
    /// none or it names no mode). The hardware is taken to be in hybrid mode
    /// at boot, so a different preference is applied before anything else.
    pub fn start(persisted: Option<String>, gpus: Vec<Gpu>, blocker: B) -> (r: (Daemon<B>, Vec<StepFailure>))
        ensures
            r.0.mode == preferred_mode_of(persisted),
            r.0.gpus == gpus,
            r.0.mode == Mode::Hybrid ==> r.0.blocker == blocker,
            r.0.mode == Mode::Hybrid ==> r.1@.len() == 0,
            governs_none(gpus@) ==> r.1@.len() == 0,
            r.0.mode == Mode::Integrated ==> forall|x: u32| policy_ids(gpus@, gpus@.len() as int).contains(x)
                && !id_blamed(gpus@, r.1@, x) ==> #[trigger] r.0.blocker.blocked_ids().contains(x),
            r.0.mode == Mode::Integrated ==> forall|k: Seq<u8>| policy_pcis(gpus@, gpus@.len() as int).contains(k)
                && !pci_blamed(gpus@, r.1@, k) ==> #[trigger] r.0.blocker.blocked_pcis().contains(k),
            forall|x: u32| !policy_ids(gpus@, gpus@.len() as int).contains(x) ==> (
                #[trigger] r.0.blocker.blocked_ids().contains(x) <==> blocker.blocked_ids().contains(x)),
            forall|k: Seq<u8>| !policy_pcis(gpus@, gpus@.len() as int).contains(k) ==> (
                #[trigger] r.0.blocker.blocked_pcis().contains(k) <==> blocker.blocked_pcis().contains(k)),
            r.0.mode == Mode::Integrated && r.1@.len() == 0 ==> r.0.blocker.blocked_ids() == ids_after_mode(
                blocker.blocked_ids(),
                gpus@,
                Mode::Integrated,
            ),
            r.0.mode == Mode::Integrated && r.1@.len() == 0 ==> r.0.blocker.blocked_pcis() == pcis_after_mode(
                blocker.blocked_pcis(),
                gpus@,
                Mode::Integrated,
            ),
    {
        let configured = preferred_mode(persisted);
        let mut daemon = Daemon::new(configured, gpus, blocker);
        let hardware = daemon.get_current_hardware_mode();
        if hardware != configured {
            let failures = daemon.apply_mode(configured);
            (daemon, failures)
        } else {
            (daemon, Vec::new())
        }
    }
}

} // verus!
