//! Bounce (DSN) extraction from a parsed email.
//!
//! The email arrives as a [`ParsedEmail`]: a plain-value picture of the MIME
//! tree, holding for each top-level part its content type, its textual
//! contents, and — where the part is itself a message, or its contents parse
//! as bare headers — the embedded message's headers. The functions here scan
//! the parts for a `message/delivery-status` part and fold its `Field: value`
//! lines into a bounce record, and separately recover the original message's
//! metadata from an embedded message part.

use vstd::prelude::*;
use vstd::string::StringSliceAdditionalSpecFns;
use crate::text::{
    starts_ci, starts_with_ci, after_first, after_last, after_first_exec, after_last_exec, trim,
    trim_exec, lines, lines_exec, bytes_eq,
};

verus! {

/// Placeholder for a recipient or original-message field that was not found.
pub open spec fn default_unknown() -> Seq<u8> {
    "unknown".spec_bytes()
}

/// Default bounce reason when no `Diagnostic-Code` field is present.
pub open spec fn default_reason() -> Seq<u8> {
    "No reason found".spec_bytes()
}

/// Default enhanced status code when no `Status` field is present.
pub open spec fn default_status() -> Seq<u8> {
    "5.0.0".spec_bytes()
}

/// Default action when no `Action` field is present.
pub open spec fn default_action() -> Seq<u8> {
    "failed".spec_bytes()
}

/// A bounce record extracted from a delivery-status part.
pub struct BounceInfo {
    pub recipient: Vec<u8>,
    pub reason: Vec<u8>,
    pub status: Vec<u8>,
    pub action: Vec<u8>,
}

/// Mathematical image of a [`BounceInfo`].
pub struct BounceView {
    pub recipient: Seq<u8>,
    pub reason: Seq<u8>,
    pub status: Seq<u8>,
    pub action: Seq<u8>,
}

impl View for BounceInfo {
    type V = BounceView;

    open spec fn view(&self) -> BounceView {
        BounceView {
            recipient: self.recipient@,
            reason: self.reason@,
            status: self.status@,
            action: self.action@,
        }
    }
}

/// The record before any delivery-status line has been read.
pub open spec fn dsn_init() -> BounceView {
    BounceView {
        recipient: default_unknown(),
        reason: default_reason(),
        status: default_status(),
        action: default_action(),
    }
}

/// One delivery-status line folded into the record.
///
/// `Original-Recipient` always overwrites the recipient; `Final-Recipient`
/// only while the recipient still holds the placeholder. The recipient is
/// what follows the last `;`, the reason what follows the first `:`, status
/// and action what follows the last `:`, each trimmed.
pub open spec fn dsn_step(acc: BounceView, line: Seq<u8>) -> BounceView {
    if starts_ci(line, "original-recipient:".spec_bytes()) || (starts_ci(
        line,
        "final-recipient:".spec_bytes(),
    ) && acc.recipient == default_unknown()) {
        BounceView { recipient: trim(after_last(line, 59)), ..acc }
    } else if starts_ci(line, "diagnostic-code:".spec_bytes()) {
        BounceView { reason: trim(after_first(line, 58)), ..acc }
    } else if starts_ci(line, "status:".spec_bytes()) {
        BounceView { status: trim(after_last(line, 58)), ..acc }
    } else if starts_ci(line, "action:".spec_bytes()) {
        BounceView { action: trim(after_last(line, 58)), ..acc }
    } else {
        acc
    }
}

pub open spec fn dsn_fold_from(acc: BounceView, ls: Seq<Seq<u8>>) -> BounceView
    decreases ls.len(),
{
    if ls.len() == 0 {
        acc
    } else {
        dsn_fold_from(dsn_step(acc, ls[0]), ls.drop_first())
    }
}

/// The bounce record a delivery-status text denotes: its lines folded in
/// order into the default record.
pub open spec fn parse_dsn_fields_spec(text: Seq<u8>) -> BounceView {
    dsn_fold_from(dsn_init(), lines(text))
}

fn lit(s: &str) -> (r: Vec<u8>)
    ensures
        r@ == s.spec_bytes(),
{
    vstd::slice::slice_to_vec(s.as_bytes())
}

/// Fold the `Field: value` lines of a delivery-status text into a bounce
/// record, as [`parse_dsn_fields_spec`] describes.
pub fn parse_dsn_fields(text: &[u8]) -> (r: BounceInfo)
    ensures
        r@ == parse_dsn_fields_spec(text@),
{
    let ls = lines_exec(text);
    let ghost lss = ls@.map_values(|l: Vec<u8>| l@);
    let mut info = BounceInfo {
        recipient: lit("unknown"),
        reason: lit("No reason found"),
        status: lit("5.0.0"),
        action: lit("failed"),
    };
    assert(info@ == dsn_init());
    let mut i: usize = 0;
    proof {
        assert(lss.skip(0) =~= lss);
    }
    while i < ls.len()
        invariant
            i <= lss.len(),
            ls@.map_values(|l: Vec<u8>| l@) == lss,
            dsn_fold_from(info@, lss.skip(i as int)) == parse_dsn_fields_spec(text@),
        decreases lss.len() - i,
    {
        let line: &[u8] = ls[i].as_slice();
        assert(line@ == lss[i as int]);
        let ghost pre = info@;
        if starts_with_ci(line, "original-recipient:".as_bytes()) || (starts_with_ci(
            line,
            "final-recipient:".as_bytes(),
        ) && bytes_eq(info.recipient.as_slice(), "unknown".as_bytes())) {
            info.recipient = trim_exec(after_last_exec(line, 59).as_slice());
        } else if starts_with_ci(line, "diagnostic-code:".as_bytes()) {
            info.reason = trim_exec(after_first_exec(line, 58).as_slice());
        } else if starts_with_ci(line, "status:".as_bytes()) {
            info.status = trim_exec(after_last_exec(line, 58).as_slice());
        } else if starts_with_ci(line, "action:".as_bytes()) {
            info.action = trim_exec(after_last_exec(line, 58).as_slice());
        }
        proof {
            assert(info@ == dsn_step(pre, lss[i as int]));
            assert(lss.skip(i as int).drop_first() =~= lss.skip(i + 1));
            assert(lss.skip(i as int)[0] == lss[i as int]);
        }
        i += 1;
    }
    proof {
        assert(lss.skip(i as int) =~= Seq::<Seq<u8>>::empty());
    }
    info
}

/// One header of an embedded original message.
pub struct HeaderField {
    pub name: Vec<u8>,
    pub value: Vec<u8>,
}

/// Mathematical image of a [`HeaderField`].
pub struct HeaderFieldView {
    pub name: Seq<u8>,
    pub value: Seq<u8>,
}

impl View for HeaderField {
    type V = HeaderFieldView;

    open spec fn view(&self) -> HeaderFieldView {
        HeaderFieldView { name: self.name@, value: self.value@ }
    }
}

/// What an embedded original message (or a headers-only fragment) yields.
pub struct EmbeddedMessage {
    pub subject: Option<Vec<u8>>,
    pub from: Option<Vec<u8>>,
    pub message_id: Option<Vec<u8>>,
    pub headers: Vec<HeaderField>,
}

/// Mathematical image of an [`EmbeddedMessage`].
pub struct EmbeddedView {
    pub subject: Option<Seq<u8>>,
    pub from: Option<Seq<u8>>,
    pub message_id: Option<Seq<u8>>,
    pub headers: Seq<HeaderFieldView>,
}

pub open spec fn opt_bytes(o: Option<Vec<u8>>) -> Option<Seq<u8>> {
    match o {
        Some(v) => Some(v@),
        None => None,
    }
}

impl View for EmbeddedMessage {
    type V = EmbeddedView;

    open spec fn view(&self) -> EmbeddedView {
        EmbeddedView {
            subject: opt_bytes(self.subject),
            from: opt_bytes(self.from),
            message_id: opt_bytes(self.message_id),
            headers: self.headers@.map_values(|h: HeaderField| h@),
        }
    }
}

/// The body of one top-level MIME part.
pub enum PartBody {
    /// The part is itself a message.
    Nested(EmbeddedMessage),
    /// Any other part: its textual contents (empty where it has none), and
    /// the embedded message those contents yield when re-parsed as bare
    /// headers, where that parse succeeded.
    Text { contents: Vec<u8>, as_headers: Option<EmbeddedMessage> },
}

/// Mathematical image of a [`PartBody`].
pub enum PartBodyView {
    Nested(EmbeddedView),
    Text { contents: Seq<u8>, as_headers: Option<EmbeddedView> },
}

impl View for PartBody {
    type V = PartBodyView;

    open spec fn view(&self) -> PartBodyView {
        match self {
            PartBody::Nested(m) => PartBodyView::Nested(m@),
            PartBody::Text { contents, as_headers } => PartBodyView::Text {
                contents: contents@,
                as_headers: match as_headers {
                    Some(m) => Some(m@),
                    None => None,
                },
            },
        }
    }
}

/// One top-level MIME part.
pub struct MessagePart {
    /// Main content type, as the MIME parser reports it; empty where the
    /// part has none.
    pub ctype: Vec<u8>,
    /// Content subtype; empty where absent.
    pub subtype: Vec<u8>,
    pub body: PartBody,
}

/// Mathematical image of a [`MessagePart`].
pub struct PartView {
    pub ctype: Seq<u8>,
    pub subtype: Seq<u8>,
    pub body: PartBodyView,
}

impl View for MessagePart {
    type V = PartView;

    open spec fn view(&self) -> PartView {
        PartView { ctype: self.ctype@, subtype: self.subtype@, body: self.body@ }
    }
}

/// A plain-value picture of a parsed email: its first `To` address, its own
/// message id, and its top-level parts.
pub struct ParsedEmail {
    pub to: Option<Vec<u8>>,
    pub message_id: Option<Vec<u8>>,
    pub parts: Vec<MessagePart>,
}

/// Mathematical image of a [`ParsedEmail`].
pub struct ParsedEmailView {
    pub to: Option<Seq<u8>>,
    pub message_id: Option<Seq<u8>>,
    pub parts: Seq<PartView>,
}

impl View for ParsedEmail {
    type V = ParsedEmailView;

    open spec fn view(&self) -> ParsedEmailView {
        ParsedEmailView {
            to: opt_bytes(self.to),
            message_id: opt_bytes(self.message_id),
            parts: self.parts@.map_values(|p: MessagePart| p@),
        }
    }
}

/// The part is a `message/delivery-status` part.
pub open spec fn is_dsn_part(p: PartView) -> bool {
    p.ctype == "message".spec_bytes() && p.subtype == "delivery-status".spec_bytes()
}

/// The textual contents of a part; empty for a nested message part.
pub open spec fn part_text(p: PartView) -> Seq<u8> {
    match p.body {
        PartBodyView::Text { contents, .. } => contents,
        PartBodyView::Nested(_) => Seq::empty(),
    }
}

/// The bounce record of the first delivery-status part, if any part is one.
pub open spec fn scan_dsn(parts: Seq<PartView>) -> Option<BounceView>
    decreases parts.len(),
{
    if parts.len() == 0 {
        None
    } else if is_dsn_part(parts[0]) {
        Some(parse_dsn_fields_spec(part_text(parts[0])))
    } else {
        scan_dsn(parts.drop_first())
    }
}

/// Scan the message for a `message/delivery-status` part and fold its
/// fields into a bounce record; `None` where no part qualifies — the
/// message is then no bounce.
pub fn parse_dsn(email: &ParsedEmail) -> (r: Option<BounceInfo>)
    ensures
        match r {
            Some(b) => scan_dsn(email@.parts) == Some(b@),
            None => scan_dsn(email@.parts) is None,
        },
{
    let ghost pv = email@.parts;
    let mut i: usize = 0;
    proof {
        assert(pv.skip(0) =~= pv);
    }
    while i < email.parts.len()
        invariant
            i <= pv.len(),
            email@.parts == pv,
            scan_dsn(pv.skip(i as int)) == scan_dsn(pv),
        decreases pv.len() - i,
    {
        let part = &email.parts[i];
        assert(part@ == pv[i as int]);
        proof {
            assert(pv.skip(i as int)[0] == pv[i as int]);
            assert(pv.skip(i as int).drop_first() =~= pv.skip(i + 1));
        }
        if bytes_eq(part.ctype.as_slice(), "message".as_bytes()) && bytes_eq(
            part.subtype.as_slice(),
            "delivery-status".as_bytes(),
        ) {
            let text: &[u8] = match &part.body {
                PartBody::Text { contents, .. } => contents.as_slice(),
                PartBody::Nested(_) => "".as_bytes(),
            };
            proof {
                reveal_strlit("");
                assert("".spec_bytes() =~= Seq::<u8>::empty());
                assert(text@ =~= part_text(pv[i as int]));
            }
            return Some(parse_dsn_fields(text));
        }
        i += 1;
    }
    proof {
        assert(pv.skip(i as int) =~= Seq::<PartView>::empty());
    }
    None
}

/// A header name marks extension metadata: it begins `X-` or `x-`.
pub open spec fn is_ext_header(name: Seq<u8>) -> bool {
    name.len() >= 2 && (name[0] == 88 || name[0] == 120) && name[1] == 45
}

/// Insert a key/value pair into an association list: the first entry with
/// the same name is replaced, else the pair is appended.
pub open spec fn meta_put(
    m: Seq<HeaderFieldView>,
    name: Seq<u8>,
    value: Seq<u8>,
) -> Seq<HeaderFieldView>
    decreases m.len(),
{
    if m.len() == 0 {
        seq![HeaderFieldView { name, value }]
    } else if m[0].name == name {
        seq![HeaderFieldView { name, value }] + m.drop_first()
    } else {
        seq![m[0]] + meta_put(m.drop_first(), name, value)
    }
}

pub open spec fn meta_fold(
    acc: Seq<HeaderFieldView>,
    hs: Seq<HeaderFieldView>,
) -> Seq<HeaderFieldView>
    decreases hs.len(),
{
    if hs.len() == 0 {
        acc
    } else {
        let acc2 = if is_ext_header(hs[0].name) {
            meta_put(acc, hs[0].name.skip(2), hs[0].value)
        } else {
            acc
        };
        meta_fold(acc2, hs.drop_first())
    }
}

/// The extension metadata a header list denotes: every `X-`/`x-` header,
/// prefix stripped, inserted in order with a later value replacing an
/// earlier one under the same name.
pub open spec fn metadata_spec(hs: Seq<HeaderFieldView>) -> Seq<HeaderFieldView> {
    meta_fold(Seq::empty(), hs)
}

/// The embedded original message a part yields: the part's own message if it
/// is one, else — for a `text/rfc822-headers` part — its contents re-parsed
/// as bare headers.
pub open spec fn part_embedded(p: PartView) -> Option<EmbeddedView> {
    match p.body {
        PartBodyView::Nested(m) => Some(m),
        PartBodyView::Text { as_headers, .. } => if p.ctype == "text".spec_bytes() && p.subtype
            == "rfc822-headers".spec_bytes() {
            as_headers
        } else {
            None
        },
    }
}

/// The first embedded original message among the parts, if any.
pub open spec fn scan_original(parts: Seq<PartView>) -> Option<EmbeddedView>
    decreases parts.len(),
{
    if parts.len() == 0 {
        None
    } else if part_embedded(parts[0]) is Some {
        part_embedded(parts[0])
    } else {
        scan_original(parts.drop_first())
    }
}

/// Original-message metadata carried into the webhook payload.
pub struct MessageInfo {
    pub from: Vec<u8>,
    pub subject: Vec<u8>,
    pub message_id: Option<Vec<u8>>,
    pub metadata: Vec<HeaderField>,
}

/// Mathematical image of a [`MessageInfo`].
pub struct MessageInfoView {
    pub from: Seq<u8>,
    pub subject: Seq<u8>,
    pub message_id: Option<Seq<u8>>,
    pub metadata: Seq<HeaderFieldView>,
}

impl View for MessageInfo {
    type V = MessageInfoView;

    open spec fn view(&self) -> MessageInfoView {
        MessageInfoView {
            from: self.from@,
            subject: self.subject@,
            message_id: opt_bytes(self.message_id),
            metadata: self.metadata@.map_values(|h: HeaderField| h@),
        }
    }
}

pub open spec fn opt_or(o: Option<Seq<u8>>, d: Seq<u8>) -> Seq<u8> {
    match o {
        Some(v) => v,
        None => d,
    }
}

/// What [`parse_original_message`] returns: the fields of the first embedded
/// original message, with the outer message id as fallback; placeholders
/// where no embedded original is found.
pub open spec fn original_info_spec(email: ParsedEmailView) -> MessageInfoView {
    match scan_original(email.parts) {
        None => MessageInfoView {
            from: default_unknown(),
            subject: default_unknown(),
            message_id: None,
            metadata: Seq::empty(),
        },
        Some(m) => MessageInfoView {
            from: opt_or(m.from, default_unknown()),
            subject: opt_or(m.subject, default_unknown()),
            message_id: if m.message_id is Some {
                m.message_id
            } else {
                email.message_id
            },
            metadata: metadata_spec(m.headers),
        },
    }
}

pub fn clone_bytes(v: &Vec<u8>) -> (r: Vec<u8>)
    ensures
        r@ == v@,
{
    vstd::slice::slice_to_vec(v.as_slice())
}

proof fn lemma_meta_put_found(m: Seq<HeaderFieldView>, name: Seq<u8>, value: Seq<u8>, i: int)
    requires
        0 <= i < m.len(),
        m[i].name == name,
        forall|k: int| 0 <= k < i ==> m[k].name != name,
    ensures
        meta_put(m, name, value) == m.update(i, HeaderFieldView { name, value }),
    decreases i,
{
    let nv = HeaderFieldView { name, value };
    if i == 0 {
        assert(m.update(0, nv) =~= seq![nv] + m.drop_first());
    } else {
        lemma_meta_put_found(m.drop_first(), name, value, i - 1);
        assert(m.update(i, nv) =~= seq![m[0]] + m.drop_first().update(i - 1, nv));
    }
}

proof fn lemma_meta_put_absent(m: Seq<HeaderFieldView>, name: Seq<u8>, value: Seq<u8>)
    requires
        forall|k: int| 0 <= k < m.len() ==> m[k].name != name,
    ensures
        meta_put(m, name, value) == m.push(HeaderFieldView { name, value }),
    decreases m.len(),
{
    let nv = HeaderFieldView { name, value };
    if m.len() == 0 {
        assert(m.push(nv) =~= seq![nv]);
    } else {
        lemma_meta_put_absent(m.drop_first(), name, value);
        assert(m.push(nv) =~= seq![m[0]] + m.drop_first().push(nv));
    }
}

fn find_name(m: &Vec<HeaderField>, name: &[u8]) -> (r: Option<usize>)
    ensures
        match r {
            Some(i) => i < m@.len() && m@[i as int].name@ == name@ && forall|j: int|
                0 <= j < i ==> m@[j].name@ != name@,
            None => forall|j: int| 0 <= j < m@.len() ==> m@[j].name@ != name@,
        },
{
    let mut k: usize = 0;
    while k < m.len()
        invariant
            k <= m@.len(),
            forall|j: int| 0 <= j < k ==> m@[j].name@ != name@,
        decreases m@.len() - k,
    {
        if bytes_eq(m[k].name.as_slice(), name) {
            return Some(k);
        }
        k += 1;
    }
    None
}

/// Insert a pair into the metadata list, as [`meta_put`] describes.
fn meta_put_exec(m: Vec<HeaderField>, name: Vec<u8>, value: Vec<u8>) -> (r: Vec<HeaderField>)
    ensures
        r@.map_values(|h: HeaderField| h@) == meta_put(
            m@.map_values(|h: HeaderField| h@),
            name@,
            value@,
        ),
{
    let ghost mv = m@.map_values(|h: HeaderField| h@);
    let found = find_name(&m, name.as_slice());
    match found {
        Some(i) => {
            proof {
                lemma_meta_put_found(mv, name@, value@, i as int);
            }
            let nv = HeaderField { name, value };
            let mut r: Vec<HeaderField> = Vec::new();
            let mut j: usize = 0;
            while j < m.len()
                invariant
                    j <= mv.len(),
                    i < mv.len(),
                    m@.map_values(|h: HeaderField| h@) == mv,
                    nv@ == (HeaderFieldView { name: name@, value: value@ }),
                    r@.map_values(|h: HeaderField| h@) =~= mv.update(
                        i as int,
                        HeaderFieldView { name: name@, value: value@ },
                    ).take(j as int),
                decreases mv.len() - j,
            {
                let ghost rpre = r@.map_values(|h: HeaderField| h@);
                let elem = if j == i {
                    HeaderField { name: clone_bytes(&nv.name), value: clone_bytes(&nv.value) }
                } else {
                    HeaderField { name: clone_bytes(&m[j].name), value: clone_bytes(&m[j].value) }
                };
                let ghost ev = elem@;
                r.push(elem);
                proof {
                    let upd = mv.update(i as int, HeaderFieldView { name: name@, value: value@ });
                    assert(ev == upd[j as int]);
                    assert(r@.map_values(|h: HeaderField| h@) =~= rpre.push(ev));
                    assert(upd.take(j + 1) =~= upd.take(j as int).push(upd[j as int]));
                }
                j += 1;
            }
            proof {
                let upd = mv.update(i as int, HeaderFieldView { name: name@, value: value@ });
                assert(upd.take(mv.len() as int) =~= upd);
            }
            r
        },
        None => {
            proof {
                lemma_meta_put_absent(mv, name@, value@);
            }
            let mut r = m;
            let ghost rpre = r@.map_values(|h: HeaderField| h@);
            r.push(HeaderField { name, value });
            proof {
                assert(r@.map_values(|h: HeaderField| h@) =~= rpre.push(
                    HeaderFieldView { name: name@, value: value@ },
                ));
            }
            r
        },
    }
}

/// Collect the extension metadata of a header list, as [`metadata_spec`]
/// describes.
fn build_metadata(hs: &Vec<HeaderField>) -> (r: Vec<HeaderField>)
    ensures
        r@.map_values(|h: HeaderField| h@) == metadata_spec(
            hs@.map_values(|h: HeaderField| h@),
        ),
{
    let ghost hv = hs@.map_values(|h: HeaderField| h@);
    let mut acc: Vec<HeaderField> = Vec::new();
    let mut i: usize = 0;
    proof {
        assert(hv.skip(0) =~= hv);
        assert(acc@.map_values(|h: HeaderField| h@) =~= Seq::<HeaderFieldView>::empty());
    }
    while i < hs.len()
        invariant
            i <= hv.len(),
            hs@.map_values(|h: HeaderField| h@) == hv,
            meta_fold(acc@.map_values(|h: HeaderField| h@), hv.skip(i as int)) == metadata_spec(
                hv,
            ),
        decreases hv.len() - i,
    {
        let h = &hs[i];
        assert(h@ == hv[i as int]);
        proof {
            assert(hv.skip(i as int)[0] == hv[i as int]);
            assert(hv.skip(i as int).drop_first() =~= hv.skip(i + 1));
        }
        let name: &[u8] = h.name.as_slice();
        if name.len() >= 2 && (name[0] == 88 || name[0] == 120) && name[1] == 45 {
            let stripped = vstd::slice::slice_to_vec(
                vstd::slice::slice_subrange(name, 2, name.len()),
            );
            proof {
                assert(stripped@ =~= hv[i as int].name.skip(2));
            }
            acc = meta_put_exec(acc, stripped, clone_bytes(&h.value));
        } else {
            assert(!is_ext_header(hv[i as int].name));
        }
        i += 1;
    }
    proof {
        assert(hv.skip(i as int) =~= Seq::<HeaderFieldView>::empty());
    }
    acc
}

/// The embedded original message a part yields, as [`part_embedded`]
/// describes.
fn part_embedded_exec<'a>(part: &'a MessagePart) -> (r: Option<&'a EmbeddedMessage>)
    ensures
        match r {
            Some(m) => part_embedded(part@) == Some(m@),
            None => part_embedded(part@) is None,
        },
{
    match &part.body {
        PartBody::Nested(m) => Some(m),
        PartBody::Text { as_headers, .. } => {
            if bytes_eq(part.ctype.as_slice(), "text".as_bytes()) && bytes_eq(
                part.subtype.as_slice(),
                "rfc822-headers".as_bytes(),
            ) {
                match as_headers {
                    Some(m) => Some(m),
                    None => None,
                }
            } else {
                None
            }
        },
    }
}

fn clone_opt_bytes(o: &Option<Vec<u8>>) -> (r: Option<Vec<u8>>)
    ensures
        opt_bytes(r) == opt_bytes(*o),
{
    match o {
        Some(v) => Some(clone_bytes(v)),
        None => None,
    }
}

/// Recover the original message's subject, sender, message id and extension
/// metadata from the first embedded message part, as
/// [`original_info_spec`] describes.
pub fn parse_original_message(email: &ParsedEmail) -> (r: MessageInfo)
    ensures
        r@ == original_info_spec(email@),
{
    let ghost pv = email@.parts;
    let mut i: usize = 0;
    proof {
        assert(pv.skip(0) =~= pv);
    }
    while i < email.parts.len()
        invariant
            i <= pv.len(),
            email@.parts == pv,
            scan_original(pv.skip(i as int)) == scan_original(pv),
        decreases pv.len() - i,
    {
        proof {
            assert(pv.skip(i as int)[0] == pv[i as int]);
            assert(pv.skip(i as int).drop_first() =~= pv.skip(i + 1));
        }
        let part = &email.parts[i];
        assert(part@ == pv[i as int]);
        match part_embedded_exec(part) {
            Some(m) => {
                let from = match &m.from {
                    Some(v) => clone_bytes(v),
                    None => lit("unknown"),
                };
                let subject = match &m.subject {
                    Some(v) => clone_bytes(v),
                    None => lit("unknown"),
                };
                let message_id = match &m.message_id {
                    Some(v) => Some(clone_bytes(v)),
                    None => clone_opt_bytes(&email.message_id),
                };
                let metadata = build_metadata(&m.headers);
                return MessageInfo { from, subject, message_id, metadata };
            },
            None => {},
        }
        i += 1;
    }
    proof {
        assert(pv.skip(i as int) =~= Seq::<PartView>::empty());
    }
    let r = MessageInfo {
        from: lit("unknown"),
        subject: lit("unknown"),
        message_id: None,
        metadata: Vec::new(),
    };
    proof {
        assert(r@.metadata =~= Seq::<HeaderFieldView>::empty());
    }
    r
}


proof fn lemma_dsn_fold_concat(acc: BounceView, xs: Seq<Seq<u8>>, ys: Seq<Seq<u8>>)
    ensures
        dsn_fold_from(acc, xs + ys) == dsn_fold_from(dsn_fold_from(acc, xs), ys),
    decreases xs.len(),
{
    if xs.len() == 0 {
        assert(xs + ys =~= ys);
    } else {
        assert((xs + ys)[0] == xs[0]);
        assert((xs + ys).drop_first() =~= xs.drop_first() + ys);
        lemma_dsn_fold_concat(dsn_step(acc, xs[0]), xs.drop_first(), ys);
    }
}

proof fn lemma_dsn_fold_no_orig(acc: BounceView, ls: Seq<Seq<u8>>)
    requires
        acc.recipient != default_unknown(),
        forall|j: int|
            0 <= j < ls.len() ==> !starts_ci(#[trigger] ls[j], "original-recipient:".spec_bytes()),
    ensures
        dsn_fold_from(acc, ls).recipient == acc.recipient,
    decreases ls.len(),
{
    if ls.len() > 0 {
        let acc2 = dsn_step(acc, ls[0]);
        assert(acc2.recipient == acc.recipient);
        lemma_dsn_fold_no_orig(acc2, ls.drop_first());
    }
}

/// `Original-Recipient` takes precedence over `Final-Recipient`.
///
/// In a delivery-status text with exactly one `Original-Recipient` line,
/// whose extracted value differs from the placeholder, the parsed
/// recipient is that line's value — whatever `Final-Recipient` lines the
/// text also holds, and wherever they stand.
pub proof fn lemma_original_recipient_precedence(text: Seq<u8>, o: int)
    requires
        0 <= o < lines(text).len(),
        starts_ci(lines(text)[o], "original-recipient:".spec_bytes()),
        forall|j: int|
            0 <= j < lines(text).len() && j != o ==> !starts_ci(
                #[trigger] lines(text)[j],
                "original-recipient:".spec_bytes(),
            ),
        trim(after_last(lines(text)[o], 59)) != default_unknown(),
    ensures
        parse_dsn_fields_spec(text).recipient == trim(after_last(lines(text)[o], 59)),
{
    let ls = lines(text);
    let lofs = ls[o];
    assert(ls =~= ls.take(o + 1) + ls.skip(o + 1));
    lemma_dsn_fold_concat(dsn_init(), ls.take(o + 1), ls.skip(o + 1));
    assert(ls.take(o + 1) =~= ls.take(o) + seq![lofs]);
    lemma_dsn_fold_concat(dsn_init(), ls.take(o), seq![lofs]);
    let acc_o = dsn_fold_from(dsn_init(), ls.take(o));
    assert(seq![lofs].drop_first() =~= Seq::<Seq<u8>>::empty());
    assert(seq![lofs][0] == lofs);
    reveal_with_fuel(dsn_fold_from, 3);
    assert(dsn_fold_from(acc_o, seq![lofs]) == dsn_step(acc_o, lofs));
    let acc1 = dsn_step(acc_o, lofs);
    assert(acc1.recipient == trim(after_last(lofs, 59)));
    assert(dsn_fold_from(dsn_init(), ls.take(o + 1)) == acc1);
    let rest = ls.skip(o + 1);
    assert forall|j: int|
        0 <= j < rest.len() implies !starts_ci(
        #[trigger] rest[j],
        "original-recipient:".spec_bytes(),
    ) by {
        assert(rest[j] == ls[o + 1 + j]);
    }
    lemma_dsn_fold_no_orig(acc1, rest);
}


} // verus!
