//! Deciding how to undo the edit of the assets file: the file is restored
//! unless it changed on disk since it was written (likely a game update).

use vstd::prelude::*;

verus! {

/// The BLAKE3 hash of some bytes.
pub uninterp spec fn blake3_hash(data: Seq<u8>) -> Seq<u8>;

/// Calls `blake3::hash` and returns the hash's 32 bytes.
#[verifier::external_body]
fn content_hash(data: &[u8]) -> (r: [u8; 32])
    ensures
        r@ == blake3_hash(data@),
{
    *blake3::hash(data).as_bytes()
}

/// The hash that is kept of the edited file as it is written.
pub fn written_hash(contents: &[u8]) -> (r: [u8; 32])
    ensures
        r@ == blake3_hash(contents@),
{
    content_hash(contents)
}

/// What undoing the edit does.
#[derive(Debug, Clone, Copy, PartialEq, Eq, Structural)]
pub enum FinishAction {
    /// The edited file changed on disk: it stays, only the backup goes.
    KeepChanged,
    /// The edited file goes and the backup takes its place again.
    Restore,
}

/// Compares the hash of the file as it was written with the hash of its
/// contents now.
pub fn finish_action(written: &[u8; 32], current: &[u8]) -> (r: FinishAction)
    ensures
        (r == FinishAction::KeepChanged) == (written@ != blake3_hash(current@)),
{
    let now = content_hash(current);
    let mut i: usize = 0;
    while i < 32
        invariant
            i <= 32,
            now@ == blake3_hash(current@),
            forall|j: int| 0 <= j < i ==> written@[j] == now@[j],
        decreases 32 - i,
    {
        if written[i] != now[i] {
            assert(written@[i as int] != now@[i as int]);
            return FinishAction::KeepChanged;
        }
        i += 1;
    }
    assert(written@ =~= now@);
    FinishAction::Restore
}

} // verus!
