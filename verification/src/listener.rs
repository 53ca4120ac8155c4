//! The click-event listener's envelope rules: the host opens its event
//! array with a lone `[`, then sends one JSON object per line, each
//! optionally prefixed with commas. A line that breaks the envelope is
//! fatal to the listener.

use vstd::prelude::*;

verus! {

/// Whether serde_json parses the text as a single JSON object.
pub uninterp spec fn parses_as_json_object(s: Seq<char>) -> bool;

/// Relies on `serde_json::from_str::<serde_json::Map<String, Value>>`:
/// it succeeds exactly when the text is one well-formed JSON object,
/// and its verdict depends on the text alone.
#[verifier::external_body]
fn line_is_json_object(s: &str) -> (r: bool)
    ensures
        r == parses_as_json_object(s@),
{
    serde_json::from_str::<serde_json::Map<String, serde_json::Value>>(s).is_ok()
}

/// The line with every leading comma removed, as the host is allowed to
/// prefix continuation lines with one.
pub open spec fn strip_leading_commas(s: Seq<char>) -> Seq<char>
    decreases s.len(),
{
    if s.len() > 0 && s[0] == ',' {
        strip_leading_commas(s.skip(1))
    } else {
        s
    }
}

/// Why a line from the host was fatal.
#[derive(Debug, Clone)]
pub enum ListenerError {
    /// The first line was not the expected `[`.
    BadOpening(String),
    /// A continuation line did not hold a JSON object.
    MalformedEvent(String),
}

/// The listener's envelope state: whether the opening `[` has arrived.
pub struct EventListener {
    pub opened: bool,
}

impl EventListener {
    /// A fresh listener, still waiting for the opening line.
    pub fn new() -> (r: Self)
        ensures
            !r.opened,
    {
        EventListener { opened: false }
    }

    /// Judge one line from the host. The first line is accepted exactly
    /// when it is `[`; every later line exactly when, after leading
    /// commas, it is one JSON object. A rejected line is fatal: by
    /// design the listener does not continue past it.
    pub fn on_line(&mut self, line: &str) -> (r: Result<(), ListenerError>)
        ensures
            !old(self).opened ==> {
                &&& (r is Ok <==> line@ == "["@)
                &&& final(self).opened == (r is Ok)
                &&& r matches Err(ListenerError::BadOpening(l)) ==> l@ == line@
                &&& r is Err ==> r matches Err(ListenerError::BadOpening(_))
            },
            old(self).opened ==> {
                &&& (r is Ok <==> parses_as_json_object(strip_leading_commas(line@)))
                &&& final(self).opened
                &&& r matches Err(ListenerError::MalformedEvent(l)) ==> l@ == line@
                &&& r is Err ==> r matches Err(ListenerError::MalformedEvent(_))
            },
    {
        if !self.opened {
            proof {
                reveal_strlit("[");
            }
            let opening = line.unicode_len() == 1 && line.get_char(0) == '[';
            proof {
                if opening {
                    assert(line@ =~= "["@);
                }
            }
            if opening {
                self.opened = true;
                Ok(())
            } else {
                Err(ListenerError::BadOpening(line.to_owned()))
            }
        } else {
            let stripped = strip_commas(line);
            if line_is_json_object(stripped.as_str()) {
                Ok(())
            } else {
                Err(ListenerError::MalformedEvent(line.to_owned()))
            }
        }
    }
}

/// Remove the leading commas of a continuation line.
fn strip_commas(s: &str) -> (r: String)
    ensures
        r@ == strip_leading_commas(s@),
{
    let n = s.unicode_len();
    let mut i: usize = 0;
    proof {
        assert(s@.skip(0) =~= s@);
    }
    loop
        invariant
            i <= n,
            n == s@.len(),
            strip_leading_commas(s@) == strip_leading_commas(s@.skip(i as int)),
        ensures
            i <= n,
            n == s@.len(),
            strip_leading_commas(s@) == strip_leading_commas(s@.skip(i as int)),
            i == n || s@[i as int] != ',',
        decreases n - i,
    {
        if i == n {
            break;
        }
        let c = s.get_char(i);
        if c != ',' {
            break;
        }
        proof {
            assert(s@.skip(i as int)[0] == s@[i as int]);
            assert(s@.skip(i as int).skip(1) =~= s@.skip(i as int + 1));
        }
        i += 1;
    }
    proof {
        assert(strip_leading_commas(s@.skip(i as int)) == s@.skip(i as int));
        assert(s@.skip(i as int) =~= s@.subrange(i as int, n as int));
    }
    let piece = s.substring_char(i, n);
    piece.to_owned()
}

} // verus!
