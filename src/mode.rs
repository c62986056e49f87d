use vstd::prelude::*;

verus! {

/// Whether two strings hold the same characters.
pub fn str_eq(a: &str, b: &str) -> (r: bool)
    ensures
        r == (a@ == b@),
{
    let n = a.unicode_len();
    if n != b.unicode_len() {
        return false;
    }
    let mut i: usize = 0;
    while i < n
        invariant
            n == a@.len(),
            n == b@.len(),
            i <= n,
            a@.subrange(0, i as int) == b@.subrange(0, i as int),
        decreases n - i,
    {
        let c = a.get_char(i);
        if c != b.get_char(i) {
            return false;
        }
        assert(a@.subrange(0, i + 1) =~= a@.subrange(0, i as int).push(a@[i as int]));
        assert(b@.subrange(0, i + 1) =~= b@.subrange(0, i as int).push(b@[i as int]));
        i = i + 1;
    }
    assert(a@ =~= a@.subrange(0, n as int));
    assert(b@ =~= b@.subrange(0, n as int));
    true
}

/// How a client takes part in a relayed connection: it dials a peer through
/// the relay, or it listens on the relay for peers that dial it.
#[derive(Clone, Copy, Debug, PartialEq, Eq, Structural)]
pub enum ClientMode {
    Dialing,
    Listening,
}

/// The mode a command-line word names, if any.
pub open spec fn mode_named(s: Seq<char>) -> Option<ClientMode> {
    if s == "Dialing"@ {
        Some(ClientMode::Dialing)
    } else if s == "Listening"@ {
        Some(ClientMode::Listening)
    } else {
        None
    }
}

/// The message given for a word that names no mode.
pub open spec fn mode_error() -> Seq<char> {
    "Dialing/Listening Needed."@
}

impl ClientMode {
    /// Reads a mode from its name, exactly as written.
    pub fn parse(mode: &str) -> (r: Result<ClientMode, String>)
        ensures
            mode_named(mode@) matches Some(m) ==> r == Ok::<ClientMode, String>(m),
            mode_named(mode@) is None ==> (r matches Err(e) && e@ == mode_error()),
    {
        proof {
            reveal_strlit("Dialing");
            reveal_strlit("Listening");
        }
        if str_eq(mode, "Dialing") {
            Ok(ClientMode::Dialing)
        } else if str_eq(mode, "Listening") {
            Ok(ClientMode::Listening)
        } else {
            let e = "Dialing/Listening Needed.".to_string();
            Err(e)
        }
    }
}

impl core::str::FromStr for ClientMode {
    type Err = String;

    fn from_str(mode: &str) -> (r: Result<ClientMode, String>)
        ensures
            mode_named(mode@) matches Some(m) ==> r == Ok::<ClientMode, String>(m),
            mode_named(mode@) is None ==> (r matches Err(e) && e@ == mode_error()),
    {
        ClientMode::parse(mode)
    }
}

} // verus!
