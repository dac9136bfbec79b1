use vstd::prelude::*;

verus! {

/// The name of the event channel of the session `id`.
pub open spec fn channel_of(id: Seq<char>) -> Seq<char> {
    seq!['t', 'e', 'r', 'm', '-', 'd', 'a', 't', 'a', ':'] + id
}

/// The event channel on which the output of session `id` is emitted.
pub fn event_channel(id: &str) -> (r: String)
    ensures
        r@ == channel_of(id@),
{
    proof {
        reveal_strlit("term-data:");
    }
    let prefix = String::from_str("term-data:");
    let r = prefix.concat(id);
    assert("term-data:"@ =~= seq!['t', 'e', 'r', 'm', '-', 'd', 'a', 't', 'a', ':']);
    r
}

/// The name of the channel on which the end of session `id` is announced.
pub open spec fn exit_channel_of(id: Seq<char>) -> Seq<char> {
    seq!['t', 'e', 'r', 'm', '-', 'e', 'x', 'i', 't', ':'] + id
}

/// The channel on which the end of session `id` is announced.
pub fn exit_channel(id: &str) -> (r: String)
    ensures
        r@ == exit_channel_of(id@),
{
    proof {
        reveal_strlit("term-exit:");
    }
    let r = String::from_str("term-exit:").concat(id);
    assert("term-exit:"@ =~= seq!['t', 'e', 'r', 'm', '-', 'e', 'x', 'i', 't', ':']);
    r
}

/// No output channel is the end channel of any session, and distinct
/// sessions announce their end on distinct channels.
pub proof fn lemma_exit_channels_distinct(a: Seq<char>, b: Seq<char>)
    ensures
        channel_of(a) != exit_channel_of(b),
        a != b ==> exit_channel_of(a) != exit_channel_of(b),
{
    assert(channel_of(a)[5] == 'd');
    assert(exit_channel_of(b)[5] == 'e');
    if a != b && exit_channel_of(a) == exit_channel_of(b) {
        assert(exit_channel_of(a).subrange(10, exit_channel_of(a).len() as int) =~= a);
        assert(exit_channel_of(b).subrange(10, exit_channel_of(b).len() as int) =~= b);
    }
}

/// Distinct sessions emit on distinct channels, so the output of one session
/// never reaches the listeners of another.
pub proof fn lemma_channels_distinct(a: Seq<char>, b: Seq<char>)
    requires
        a != b,
    ensures
        channel_of(a) != channel_of(b),
{
    if channel_of(a) == channel_of(b) {
        assert(channel_of(a).subrange(10, channel_of(a).len() as int) =~= a);
        assert(channel_of(b).subrange(10, channel_of(b).len() as int) =~= b);
    }
}

} // verus!
