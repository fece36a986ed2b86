//! One plaintext, or several, for many established peers.
use vstd::prelude::*;
use crate::addr::{Outbound, OutboundView, UdpAddr};
use crate::failure::{outbounds_view, Failure, FailureView};
use crate::host::host::Host;
use crate::host::model::HostView;

verus! {

/// The host after a plaintext went to the first `n` addresses and the datagrams
/// to send, or the first failure and the datagrams before it.
pub open spec fn sent_to_each(host: HostView, addrs: Seq<UdpAddr>, plaintext: Seq<u8>, n: nat) -> Result<
    (HostView, Seq<OutboundView>),
    FailureView,
>
    decreases n,
{
    if n == 0 {
        Ok((host, Seq::empty()))
    } else {
        match sent_to_each(host, addrs, plaintext, (n - 1) as nat) {
            Err(e) => Err(e),
            Ok((h, out)) => match h.send_error(addrs[n - 1], plaintext) {
                Some(error) => Err(FailureView { error, outbound: out }),
                None => Ok(
                    (h.sent(addrs[n - 1]), out.push(h.send_datagram(addrs[n - 1], plaintext))),
                ),
            },
        }
    }
}

/// Once a send has failed all fail.
proof fn lemma_sent_fails(host: HostView, addrs: Seq<UdpAddr>, plaintext: Seq<u8>, i: nat, n: nat)
    requires
        i <= n,
        sent_to_each(host, addrs, plaintext, i) is Err,
    ensures
        sent_to_each(host, addrs, plaintext, n) == sent_to_each(host, addrs, plaintext, i),
    decreases n,
{
    if i < n {
        lemma_sent_fails(host, addrs, plaintext, i, (n - 1) as nat);
    }
}

/// Sending moves no peer in or out of the table.
pub proof fn lemma_sent_keeps_peers(host: HostView, addrs: Seq<UdpAddr>, plaintext: Seq<u8>, n: nat)
    requires
        n <= addrs.len(),
    ensures
        sent_to_each(host, addrs, plaintext, n) matches Ok((h, out)) ==> h.established.dom()
            == host.established.dom() && out.len() == n,
    decreases n,
{
    if n > 0 {
        lemma_sent_keeps_peers(host, addrs, plaintext, (n - 1) as nat);
        if let Ok((h, out)) = sent_to_each(host, addrs, plaintext, (n - 1) as nat) {
            if h.send_error(addrs[n - 1], plaintext) is None {
                assert(h.sent(addrs[n - 1]).established.dom() =~= h.established.dom());
            }
        }
    }
}

/// Sends a plaintext to each address in turn.
pub fn send_to_each(host: Host, addrs: &Vec<UdpAddr>, plaintext: &[u8]) -> (r: Result<
    (Host, Vec<Outbound>),
    Failure,
>)
    ensures
        match r {
            Ok((next, outbound)) => sent_to_each(host@, addrs@, plaintext@, addrs@.len()) == Ok::<
                (HostView, Seq<OutboundView>),
                FailureView,
            >((next@, outbounds_view(outbound@))),
            Err(e) => sent_to_each(host@, addrs@, plaintext@, addrs@.len()) == Err::<
                (HostView, Seq<OutboundView>),
                FailureView,
            >(e@),
        },
{
    let ghost start = host@;
    let mut next = host;
    let mut outbound: Vec<Outbound> = Vec::new();
    let mut i: usize = 0;
    assert(outbounds_view(outbound@) =~= Seq::<OutboundView>::empty());
    while i < addrs.len()
        invariant
            i <= addrs@.len(),
            start == host@,
            sent_to_each(start, addrs@, plaintext@, i as nat) == Ok::<
                (HostView, Seq<OutboundView>),
                FailureView,
            >((next@, outbounds_view(outbound@))),
        decreases addrs@.len() - i,
    {
        let addr = addrs[i];
        let ghost before = outbound@;
        let ghost h = next@;
        match next.send(addr, plaintext) {
            Err(error) => {
                let failure = Failure { error, outbound };
                proof {
                    assert(sent_to_each(start, addrs@, plaintext@, (i + 1) as nat) == Err::<
                        (HostView, Seq<OutboundView>),
                        FailureView,
                    >(failure@));
                    lemma_sent_fails(start, addrs@, plaintext@, (i + 1) as nat, addrs@.len());
                }
                return Err(failure);
            },
            Ok((stepped, o)) => {
                outbound.push(o);
                assert(outbounds_view(outbound@) =~= outbounds_view(before).push(o@));
                next = stepped;
            },
        }
        i = i + 1;
    }
    Ok((next, outbound))
}

} // verus!
