//! The segment codec: decomposes an ordered list of typed message parts into
//! ordered (kind, content) pairs, and interprets each pair into the stored
//! row's content and interpretation columns.
//!
//! A part with an unrecognized kind or a missing payload is skipped with a
//! warning; an `at` part whose target does not parse as an integer is
//! dropped the same way.  One bad part never discards the rest.

use vstd::prelude::*;
use vstd::string::StringExecFns;
use crate::store::{GroupChatSegment, SegView};
use crate::text::{dec_str_int, i64_to_dec, is_i64_string, parse_i64, signed_dec_val, str_eq};

verus! {

/// One inbound message part: its kind tag and the payload value already
/// pulled out of the part's data, `None` when that field was missing or not
/// a string.
pub struct MessagePart {
    pub kind: String,
    pub payload: Option<String>,
}

/// The mathematical value of a message part.
pub ghost struct PartView {
    pub kind: Seq<char>,
    pub payload: Option<Seq<char>>,
}

impl View for MessagePart {
    type V = PartView;

    open spec fn view(&self) -> PartView {
        PartView {
            kind: self.kind@,
            payload: match self.payload {
                Some(p) => Some(p@),
                None => None,
            },
        }
    }
}

/// The views of a vector of parts, in order.
pub open spec fn part_views(parts: Seq<MessagePart>) -> Seq<PartView> {
    parts.map_values(|p: MessagePart| p@)
}

/// The views of a vector of (kind, content) pairs, in order.
pub open spec fn pair_views(ps: Seq<(String, String)>) -> Seq<(Seq<char>, Seq<char>)> {
    ps.map_values(|p: (String, String)| (p.0@, p.1@))
}

/// The data field that carries a part's payload, by kind; `None` for an
/// unrecognized kind.
pub open spec fn payload_field_of(kind: Seq<char>) -> Option<Seq<char>> {
    if kind == "text"@ {
        Some("text"@)
    } else if kind == "image"@ || kind == "record"@ || kind == "video"@ {
        Some("file"@)
    } else if kind == "at"@ {
        Some("qq"@)
    } else if kind == "share"@ {
        Some("url"@)
    } else if kind == "contact"@ || kind == "reply"@ || kind == "forward"@ || kind == "node"@ {
        Some("id"@)
    } else {
        None
    }
}

/// The data field that carries a part's payload, by kind.
pub fn payload_field(kind: &str) -> (r: Option<&'static str>)
    ensures
        (r is Some) == (payload_field_of(kind@) is Some),
        r matches Some(f) ==> payload_field_of(kind@) matches Some(v) && f@ == v,
{
    if str_eq(kind, "text") {
        Some("text")
    } else if str_eq(kind, "image") || str_eq(kind, "record") || str_eq(kind, "video") {
        Some("file")
    } else if str_eq(kind, "at") {
        Some("qq")
    } else if str_eq(kind, "share") {
        Some("url")
    } else if str_eq(kind, "contact") || str_eq(kind, "reply") || str_eq(kind, "forward")
        || str_eq(kind, "node") {
        Some("id")
    } else {
        None
    }
}

/// The segment one part decomposes to: `None` when the part is dropped.
/// An `at` part must carry an integer target, which is emitted in canonical
/// decimal form; every other recognized part passes its payload through.
pub open spec fn seg_of(p: PartView) -> Option<(Seq<char>, Seq<char>)> {
    match p.payload {
        None => None,
        Some(pl) => {
            if payload_field_of(p.kind) is None {
                None
            } else if p.kind == "at"@ {
                if is_i64_string(pl) {
                    Some((p.kind, dec_str_int(signed_dec_val(pl))))
                } else {
                    None
                }
            } else {
                Some((p.kind, pl))
            }
        },
    }
}

/// Why a part was dropped.
#[derive(Debug, PartialEq, Eq, Structural, Clone, Copy)]
pub enum CodecWarning {
    /// Unrecognized kind, or no payload to read.
    Skipped { index: usize },
    /// An `at` part whose target is not an integer.
    AtTargetNotInteger { index: usize },
}

/// The warning a dropped part raises, by its position.
pub open spec fn warn_of(p: PartView, i: int) -> Seq<CodecWarning> {
    if seg_of(p) is Some {
        Seq::empty()
    } else if p.payload is Some && payload_field_of(p.kind) is Some {
        seq![CodecWarning::AtTargetNotInteger { index: i as usize }]
    } else {
        seq![CodecWarning::Skipped { index: i as usize }]
    }
}

/// The ordered segments of a part list: each part's segment, dropped parts
/// contributing nothing.
pub open spec fn segs_of(ps: Seq<PartView>) -> Seq<(Seq<char>, Seq<char>)>
    decreases ps.len(),
{
    if ps.len() == 0 {
        Seq::empty()
    } else {
        segs_of(ps.drop_last()) + (match seg_of(ps.last()) {
            Some(kc) => seq![kc],
            None => Seq::empty(),
        })
    }
}

/// The warnings of a part list, in part order.
pub open spec fn warns_of(ps: Seq<PartView>) -> Seq<CodecWarning>
    decreases ps.len(),
{
    if ps.len() == 0 {
        Seq::empty()
    } else {
        warns_of(ps.drop_last()) + warn_of(ps.last(), ps.len() - 1)
    }
}

/// Decomposes the parts of one message into ordered (kind, content) pairs,
/// reporting one warning for each dropped part.
pub fn extract_segments(parts: &Vec<MessagePart>) -> (r: (
    Vec<(String, String)>,
    Vec<CodecWarning>,
))
    ensures
        pair_views(r.0@) == segs_of(part_views(parts@)),
        r.1@ == warns_of(part_views(parts@)),
{
    let ghost pv = part_views(parts@);
    let mut segs: Vec<(String, String)> = Vec::new();
    let mut warns: Vec<CodecWarning> = Vec::new();
    proof {
        assert(pv.take(0) =~= Seq::<PartView>::empty());
        assert(pair_views(segs@) =~= segs_of(pv.take(0)));
        assert(warns@ =~= warns_of(pv.take(0)));
    }
    let n = parts.len();
    let mut i: usize = 0;
    while i < n
        invariant
            n == parts@.len(),
            i <= n,
            pv == part_views(parts@),
            pair_views(segs@) =~= segs_of(pv.take(i as int)),
            warns@ =~= warns_of(pv.take(i as int)),
        decreases n - i,
    {
        proof {
            assert(pv[i as int] == parts@[i as int]@);
            assert(pv.take(i + 1).drop_last() =~= pv.take(i as int));
            assert(pv.take(i + 1).last() == pv[i as int]);
        }
        let part = &parts[i];
        let ghost sv0 = pair_views(segs@);
        let recognized = payload_field(part.kind.as_str()).is_some();
        match &part.payload {
            None => {
                warns.push(CodecWarning::Skipped { index: i });
                proof {
                    assert(seg_of(pv[i as int]) is None);
                    assert(warn_of(pv[i as int], i as int) =~= seq![
                        CodecWarning::Skipped { index: i },
                    ]);
                }
            }
            Some(payload) => {
                if !recognized {
                    warns.push(CodecWarning::Skipped { index: i });
                    proof {
                        assert(seg_of(pv[i as int]) is None);
                        assert(warn_of(pv[i as int], i as int) =~= seq![
                            CodecWarning::Skipped { index: i },
                        ]);
                    }
                } else if str_eq(part.kind.as_str(), "at") {
                    match parse_i64(payload.as_str()) {
                        Some(target) => {
                            let kind = part.kind.clone();
                            let content = i64_to_dec(target);
                            segs.push((kind, content));
                            proof {
                                assert(seg_of(pv[i as int]) matches Some(kc) && kc == (
                                    pv[i as int].kind,
                                    dec_str_int(signed_dec_val(payload@)),
                                ));
                            }
                        }
                        None => {
                            warns.push(CodecWarning::AtTargetNotInteger { index: i });
                            proof {
                                assert(seg_of(pv[i as int]) is None);
                                assert(warn_of(pv[i as int], i as int) =~= seq![
                                    CodecWarning::AtTargetNotInteger { index: i },
                                ]);
                            }
                        }
                    }
                } else {
                    let kind = part.kind.clone();
                    let content = payload.clone();
                    segs.push((kind, content));
                    proof {
                        assert(seg_of(pv[i as int]) matches Some(kc) && kc == (
                            pv[i as int].kind,
                            payload@,
                        ));
                    }
                }
            }
        }
        proof {
            assert(pair_views(segs@) =~= segs_of(pv.take(i + 1)));
            assert(warns@ =~= warns_of(pv.take(i + 1)));
        }
        i = i + 1;
    }
    proof {
        assert(pv.take(n as int) =~= pv);
    }
    (segs, warns)
}

/// The text of a message: the payloads of its `text` parts, each followed by
/// a line break; reading stops at a `text` part with no payload.
pub open spec fn text_of(ps: Seq<PartView>) -> Seq<char>
    decreases ps.len(),
{
    if ps.len() == 0 {
        Seq::empty()
    } else if ps[0].kind != "text"@ {
        text_of(ps.drop_first())
    } else {
        match ps[0].payload {
            None => Seq::empty(),
            Some(pl) => pl + seq!['\n'] + text_of(ps.drop_first()),
        }
    }
}

/// Concatenates the message's text parts, one line each.
pub fn extract_text(parts: &Vec<MessagePart>) -> (r: String)
    ensures
        r@ == text_of(part_views(parts@)),
{
    let ghost pv = part_views(parts@);
    let mut buf = String::new();
    let n = parts.len();
    let mut i: usize = 0;
    proof {
        assert(pv.skip(0) =~= pv);
    }
    while i < n
        invariant
            n == parts@.len(),
            i <= n,
            pv == part_views(parts@),
            text_of(pv) =~= buf@ + text_of(pv.skip(i as int)),
        decreases n - i,
    {
        proof {
            assert(pv[i as int] == parts@[i as int]@);
            assert(pv.skip(i as int)[0] == pv[i as int]);
            assert(pv.skip(i as int).drop_first() =~= pv.skip(i + 1));
        }
        let part = &parts[i];
        if str_eq(part.kind.as_str(), "text") {
            match &part.payload {
                None => {
                    proof {
                        assert(text_of(pv.skip(i as int)) =~= Seq::<char>::empty());
                    }
                    return buf;
                }
                Some(payload) => {
                    buf.append(payload.as_str());
                    buf.push('\n');
                }
            }
        }
        i = i + 1;
    }
    proof {
        assert(pv.skip(n as int) =~= Seq::<PartView>::empty());
        assert(text_of(pv.skip(n as int)) =~= Seq::<char>::empty());
    }
    buf
}

/// Externally resolved data a segment's interpretation needs: the name a
/// mentioned user goes by, or the local path and upload result of a media
/// file.
pub enum ExternalInterp {
    NotNeeded,
    AtName(String),
    MediaPath { path: String, upload: String },
}

/// Whether a media path is local and should be uploaded: it starts with a
/// path separator.
pub fn needs_upload(path: &str) -> (r: bool)
    ensures
        r == (path@.len() > 0 && path@[0] == '/'),
{
    if path.unicode_len() == 0 {
        return false;
    }
    path.get_char(0) == '/'
}

/// The stored (content, interpretation) columns of one decomposed segment:
/// a share keeps its url, media keeps its path with the upload result, an
/// `at` keeps the target id with the target's name, text and replies keep
/// their payload, anything else is stored blank.
pub open spec fn interp_of(kind: Seq<char>, content: Seq<char>, extra: ExternalInterp) -> (
    Seq<char>,
    Seq<char>,
) {
    if kind == "share"@ {
        (content, "url"@)
    } else if kind == "video"@ {
        (content, "not supported"@)
    } else if kind == "record"@ || kind == "image"@ {
        match extra {
            ExternalInterp::MediaPath { path, upload } => {
                if path@.len() > 0 && path@[0] == '/' {
                    (path@, upload@)
                } else {
                    (path@, Seq::<char>::empty())
                }
            },
            _ => (content, Seq::<char>::empty()),
        }
    } else if kind == "at"@ {
        match extra {
            ExternalInterp::AtName(name) => (content, name@),
            _ => (content, Seq::<char>::empty()),
        }
    } else if kind == "reply"@ {
        (content, "message_id"@)
    } else if kind == "text"@ {
        (content, "text"@)
    } else {
        (Seq::<char>::empty(), Seq::<char>::empty())
    }
}

/// Builds the stored row for one decomposed segment of a message.
pub fn make_row(
    message_id: i32,
    time: &str,
    sender_id: i64,
    sender_name: &str,
    kind: String,
    content: String,
    extra: ExternalInterp,
) -> (seg: GroupChatSegment)
    ensures
        seg@ == (SegView {
            message_id: message_id as int,
            time: time@,
            sender_id: sender_id as int,
            sender_name: sender_name@,
            seg_type: kind@,
            content: interp_of(kind@, content@, extra).0,
            interpret: interp_of(kind@, content@, extra).1,
        }),
{
    let ghost kv = kind@;
    let ghost cv = content@;
    let ghost ev = extra;
    let (stored, interpret): (String, String) = if str_eq(kind.as_str(), "share") {
        (content, String::from_str("url"))
    } else if str_eq(kind.as_str(), "video") {
        (content, String::from_str("not supported"))
    } else if str_eq(kind.as_str(), "record") || str_eq(kind.as_str(), "image") {
        match extra {
            ExternalInterp::MediaPath { path, upload } => {
                if needs_upload(path.as_str()) {
                    (path, upload)
                } else {
                    (path, String::new())
                }
            },
            _ => (content, String::new()),
        }
    } else if str_eq(kind.as_str(), "at") {
        match extra {
            ExternalInterp::AtName(name) => (content, name),
            _ => (content, String::new()),
        }
    } else if str_eq(kind.as_str(), "reply") {
        (content, String::from_str("message_id"))
    } else if str_eq(kind.as_str(), "text") {
        (content, String::from_str("text"))
    } else {
        (String::new(), String::new())
    };
    proof {
        assert((stored@, interpret@) == interp_of(kv, cv, ev));
    }
    GroupChatSegment {
        message_id,
        time: String::from_str(time),
        sender_id,
        sender_name: String::from_str(sender_name),
        seg_type: kind,
        content: stored,
        interpret,
    }
}

} // verus!
