//! The document that an array of characters holds, as a `String`.

use vstd::prelude::*;

use crate::placement::visible;
use crate::rga::{Rga, RgaUnit};

verus! {

/// Appends `c` to `s` (`String::push`).
#[verifier::external_body]
fn push_char(s: &mut String, c: char)
    ensures
        final(s)@ == old(s)@.push(c),
{
    s.push(c);
}

impl Rga<char> {
    /// The characters of the live units after the root, in order.
    pub fn to_string(&self) -> (s: String)
        ensures
            s@ == self@.text(),
    {
        let mut out = String::new();
        let mut cur: &RgaUnit<char> = self.root();
        proof {
            cur.lemma_chain_shape();
        }
        loop
            invariant
                out@ + visible(cur.chain().drop_first()) == self@.text(),
            ensures
                out@ == self@.text(),
            decreases cur.chain().len(),
        {
            proof {
                cur.lemma_chain_shape();
            }
            match &cur.next {
                None => {
                    assert(out@ + visible(cur.chain().drop_first()) =~= out@);
                    break ;
                },
                Some(next) => {
                    let ghost before = out@;
                    proof {
                        next.lemma_chain_shape();
                    }
                    if !next.is_tombstone {
                        push_char(&mut out, next.contents);
                    }
                    assert(out@ + visible(next.chain().drop_first()) =~= before + visible(
                        cur.chain().drop_first(),
                    ));
                    cur = next;
                },
            }
        }
        out
    }
}

} // verus!
