//! The choice between TCP and Unix domain sockets, made from the server name.

use vstd::prelude::*;

verus! {

/// The kind of stream a server name stands for.
#[allow(non_camel_case_types, clippy::upper_case_acronyms)]
#[derive(Debug, PartialEq, Eq, Structural, Clone, Copy)]
pub enum StreamType {
    TCP,
    UNIX,
}

/// Picks the kind of stream for a server name.
pub struct Factory;

impl Factory {
    /// A name with a colon in it is a TCP address; any other is a socket path.
    pub fn stream_type(server_name: &str) -> (t: StreamType)
        ensures
            (t == StreamType::TCP) == server_name@.contains(':'),
            (t == StreamType::UNIX) == !server_name@.contains(':'),
    {
        broadcast use vstd::string::axiom_spec_iter;

        let mut found = false;
        proof {
            assert(server_name@.take(server_name@.len() as int) =~= server_name@);
        }
        for c in it: server_name.chars()
            invariant
                it.seq() == server_name@,
                found == server_name@.take(it.index() as int).contains(':'),
        {
            let ghost before = server_name@.take(it.index() as int);
            proof {
                assert(server_name@.take(it.index() + 1) =~= before.push(c));
                assert(before.push(c)[before.len() as int] == c);
                if before.contains(':') {
                    let j = choose|j: int| 0 <= j < before.len() && before[j] == ':';
                    assert(before.push(c)[j] == ':');
                }
                if before.push(c).contains(':') {
                    let j = choose|j: int| 0 <= j < before.len() + 1 && before.push(c)[j] == ':';
                    if j < before.len() {
                        assert(before[j] == ':');
                    }
                }
            }
            if c == ':' {
                found = true;
            }
        }
        if found {
            StreamType::TCP
        } else {
            StreamType::UNIX
        }
    }
}

} // verus!
