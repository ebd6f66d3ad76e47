//! The presenter: renders an ordered message sequence into a response
//! body, one line per message with username, timestamp and body. The
//! empty sequence renders to the empty body, deterministically.

use vstd::prelude::*;
use crate::message::Message;
use crate::message::MessageView;
use crate::message::views_of;
use crate::text::dec_int;
use crate::text::format_i64;

verus! {

/// One rendered line: `username (timestamp): body`, newline-terminated.
pub open spec fn render_line(mv: MessageView) -> Seq<char> {
    mv.username + " ("@ + dec_int(mv.created_at as int) + "): "@ + mv.body + "\n"@
}

/// The rendered page: each message's line in sequence order; empty input
/// renders to the empty text.
pub open spec fn render_views(ms: Seq<MessageView>) -> Seq<char>
    decreases ms.len(),
{
    if ms.len() == 0 {
        Seq::empty()
    } else {
        render_views(ms.drop_last()) + render_line(ms.last())
    }
}

/// Render a message list into the response body text.
pub fn render_page(messages: &Vec<Message>) -> (r: String)
    ensures
        r@ == render_views(views_of(messages@)),
{
    let ghost c = views_of(messages@);
    let mut out = String::new();
    let mut i: usize = 0;
    proof {
        assert(c.take(0) =~= Seq::<MessageView>::empty());
        assert(out@ =~= render_views(c.take(0)));
    }
    while i < messages.len()
        invariant
            i <= messages.len(),
            c == views_of(messages@),
            out@ == render_views(c.take(i as int)),
        decreases messages.len() - i,
    {
        proof {
            assert(c[i as int] == messages@[i as int]@);
            assert(c.take(i as int + 1).drop_last() =~= c.take(i as int));
            assert(c.take(i as int + 1).last() == c[i as int]);
        }
        out.append(messages[i].username.as_str());
        out.append(" (");
        let ts = format_i64(messages[i].created_at);
        out.append(ts.as_str());
        out.append("): ");
        out.append(messages[i].body.as_str());
        out.append("\n");
        proof {
            assert(out@ =~= render_views(c.take(i as int + 1)));
        }
        i = i + 1;
    }
    proof {
        assert(c.take(messages@.len() as int) =~= c);
    }
    out
}

} // verus!
