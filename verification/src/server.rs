//! Where the server listens, and what the window shows of it.

use crate::text::{chars_of, contains, same, to_decimal};
use vstd::prelude::*;

verus! {

/// The address of this machine as it sees itself.
pub const LOOPBACK_IP: &'static str = "127.0.0.1";

/// The port that is tried first.
pub const PREFERRED_PORT: u16 = 38713;

/// The index of the first argument, from `i` on, that asks for the server alone.
pub open spec fn server_flag(args: Seq<Seq<char>>, i: int) -> Option<int>
    decreases args.len() - i,
{
    if i < 0 || i >= args.len() {
        None
    } else if args[i] == "-s"@ {
        Some(i)
    } else {
        server_flag(args, i + 1)
    }
}

/// An address with a port: 8000 where it has none.
pub open spec fn with_port(address: Seq<char>) -> Seq<char> {
    if crate::text::has_text(address, ":"@) {
        address
    } else {
        address + ":8000"@
    }
}

/// The address that the server alone listens on, where the arguments ask for it.
pub open spec fn address_in(args: Seq<Seq<char>>) -> Option<Seq<char>> {
    match server_flag(args, 0) {
        Some(k) => Some(
            with_port(
                if k + 1 < args.len() {
                    args[k + 1]
                } else {
                    "0.0.0.0"@
                },
            ),
        ),
        None => None,
    }
}

/// The address that the server alone listens on, where the arguments ask for it.
pub fn server_address(args: &Vec<String>) -> (r: Option<String>)
    ensures
        crate::text::opt_view(r) == address_in(crate::text::texts(args@)),
{
    let ghost all = crate::text::texts(args@);
    let len: usize = args.len();
    let mut i: usize = 0;
    while i < len
        invariant
            i <= len == args@.len(),
            all == crate::text::texts(args@),
            server_flag(all, 0) == server_flag(all, i as int),
        decreases len - i,
    {
        assert(all[i as int] == args@[i as int]@);
        if same(args[i].as_str(), "-s") {
            let mut address = if len - i > 1 {
                assert(all[i + 1] == args@[i + 1]@);
                args[i + 1].clone()
            } else {
                "0.0.0.0".to_owned()
            };
            let s = chars_of(address.as_str());
            if !contains(s.as_slice(), ":") {
                address.append(":8000");
            }
            return Some(address);
        }
        i = i + 1;
    }
    None
}

/// The address that a window is reached at, given the port and the page.
pub open spec fn page_url(port: u16, page: Seq<char>) -> Seq<char> {
    "http://"@ + LOOPBACK_IP@ + ":"@ + crate::text::decimal(port as nat) + "/"@ + page
}

/// The address that a window is reached at, given the port and the page.
pub fn window_url(port: u16, page: &str) -> (r: String)
    ensures
        r@ == page_url(port, page@),
{
    let mut url = "http://".to_owned();
    url.append(LOOPBACK_IP);
    url.append(":");
    url.append(to_decimal(port as u64).as_str());
    url.append("/");
    url.append(page);
    url
}

/// The address on this machine with the given port. With port zero the system picks one.
pub fn loopback_address(port: u16) -> (r: String)
    ensures
        r@ == LOOPBACK_IP@ + ":"@ + crate::text::decimal(port as nat),
{
    let mut address = LOOPBACK_IP.to_owned();
    address.append(":");
    address.append(to_decimal(port as u64).as_str());
    address
}

/// The server alone always listens on an address with a port.
pub proof fn law_address_has_a_port(args: Seq<Seq<char>>)
    ensures
        address_in(args) matches Some(a) ==> crate::text::has_text(a, ":"@),
        address_in(args) is Some <==> args.contains("-s"@),
{
    lemma_server_flag(args, 0);
    if let Some(k) = server_flag(args, 0) {
        assert(args.contains("-s"@));
        let address = if k + 1 < args.len() {
            args[k + 1]
        } else {
            "0.0.0.0"@
        };
        if !crate::text::has_text(address, ":"@) {
            reveal_strlit(":");
            reveal_strlit(":8000");
            let a = address + ":8000"@;
            assert(a.subrange(address.len() as int, address.len() as int + 1) =~= ":"@);
            assert(crate::text::occurs_at(a, ":"@, address.len() as int));
        }
    }
}

proof fn lemma_server_flag(args: Seq<Seq<char>>, i: int)
    requires
        0 <= i,
    ensures
        match server_flag(args, i) {
            Some(k) => i <= k < args.len() && args[k] == "-s"@,
            None => forall|j: int| i <= j < args.len() ==> #[trigger] args[j] != "-s"@,
        },
    decreases args.len() - i,
{
    if i < args.len() && args[i] != "-s"@ {
        lemma_server_flag(args, i + 1);
    }
}

/// Without the flag no address is asked for. With it the address is what follows its first
/// occurrence, or every address of the machine where nothing does, and an address without a port
/// gets the usual one.
pub proof fn law_address_follows_the_flag(args: Seq<Seq<char>>, k: int)
    ensures
        (forall|i: int| 0 <= i < args.len() ==> #[trigger] args[i] != "-s"@) ==> address_in(args)
            is None,
        (0 <= k < args.len() && args[k] == "-s"@ && forall|i: int|
            0 <= i < k ==> #[trigger] args[i] != "-s"@) ==> {
            let named = if k + 1 < args.len() {
                args[k + 1]
            } else {
                "0.0.0.0"@
            };
            &&& address_in(args) matches Some(address)
            &&& crate::text::has_text(named, ":"@) ==> address == named
            &&& !crate::text::has_text(named, ":"@) ==> address == named + ":8000"@
        },
{
    lemma_first_flag(args, 0, k);
}

proof fn lemma_first_flag(args: Seq<Seq<char>>, i: int, k: int)
    requires
        0 <= i,
    ensures
        (forall|j: int| i <= j < args.len() ==> #[trigger] args[j] != "-s"@) ==> server_flag(
            args,
            i,
        ) is None,
        (i <= k < args.len() && args[k] == "-s"@ && forall|j: int|
            i <= j < k ==> #[trigger] args[j] != "-s"@) ==> server_flag(args, i) == Some(k),
    decreases args.len() - i,
{
    if i < args.len() && args[i] != "-s"@ {
        lemma_first_flag(args, i + 1, k);
    }
}

/// A page is at the machine itself, at the port that was given and under its own name.
pub proof fn law_pages_are_on_this_machine(port: u16, page: Seq<char>)
    ensures
        crate::text::begins(page_url(port, page), "http://127.0.0.1:"@),
        page_url(port, page) == "http://127.0.0.1:"@ + crate::text::decimal(port as nat) + "/"@
            + page,
{
    reveal_strlit("http://");
    reveal_strlit("127.0.0.1");
    reveal_strlit(":");
    reveal_strlit("http://127.0.0.1:");
    let start = "http://127.0.0.1:"@;
    assert("http://"@ + LOOPBACK_IP@ + ":"@ =~= start);
    let url = page_url(port, page);
    assert(url =~= start + crate::text::decimal(port as nat) + "/"@ + page);
    assert(url.subrange(0, start.len() as int) =~= start);
}

} // verus!
