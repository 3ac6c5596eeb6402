//! The decoded response model and its renderer.

use vstd::prelude::*;

use crate::formatters::Formatter;

verus! {

/// Mathematical model of one translated sentence: a source/target text pair.
pub struct SentenceModel {
    pub source: Seq<char>,
    pub target: Seq<char>,
}

/// Mathematical model of the smart-result section: its entries and the
/// informational result-type tag.
pub struct SmartModel {
    pub entries: Seq<Seq<char>>,
    pub typ: int,
}

/// Mathematical model of a decoded response.
pub struct ResponseModel {
    pub error_code: int,
    pub translate: Option<Seq<Seq<SentenceModel>>>,
    pub smart: Option<SmartModel>,
}

/// Failure of decoding: the response body is not valid JSON of the expected
/// shape.
#[derive(Debug, Clone, Copy, PartialEq, Eq, Structural)]
pub enum DecodeError {
    Malformed,
}

impl DecodeError {
    /// A short diagnostic for display.
    pub fn message(&self) -> (r: String)
        ensures
            r@ == "malformed JSON response body"@,
    {
        String::from_str("malformed JSON response body")
    }
}

/// One unit of translated text: the source text and its translation.
#[derive(Debug)]
pub struct YdTranslateResult {
    pub source: String,
    pub target: String,
}

impl DeepView for YdTranslateResult {
    type V = SentenceModel;

    open spec fn deep_view(&self) -> SentenceModel {
        SentenceModel { source: self.source@, target: self.target@ }
    }
}

/// The smart-result section: alternative entries plus an integer tag.
#[derive(Debug)]
pub struct YdSmartResult {
    pub entries: Vec<String>,
    pub typ: i32,
}

impl View for YdSmartResult {
    type V = SmartModel;

    open spec fn view(&self) -> SmartModel {
        SmartModel { entries: self.entries.deep_view(), typ: self.typ as int }
    }
}

/// The decoded response: an error code, optional ordered paragraphs of
/// sentences, and an optional smart result. When the error code is not zero,
/// or the paragraphs are absent, the response means "no translation".
#[derive(Debug)]
pub struct YdResponse {
    pub error_code: i32,
    pub translate_result: Option<Vec<Vec<YdTranslateResult>>>,
    pub smart_result: Option<YdSmartResult>,
}

impl View for YdResponse {
    type V = ResponseModel;

    open spec fn view(&self) -> ResponseModel {
        ResponseModel {
            error_code: self.error_code as int,
            translate: match self.translate_result {
                Some(t) => Some(t.deep_view()),
                None => None,
            },
            smart: match self.smart_result {
                Some(s) => Some(s@),
                None => None,
            },
        }
    }
}

/// The rendered lines of one sentence: the source underlined, then the
/// target, both indented, each on a line of its own.
pub open spec fn sent_block<F: Formatter>(fmt: &F, st: SentenceModel) -> Seq<char> {
    "\n    "@ + fmt.underline_spec(st.source) + "\n    "@ + st.target
}

/// The rendered lines of one paragraph, sentences in original order.
pub open spec fn para_block<F: Formatter>(fmt: &F, p: Seq<SentenceModel>) -> Seq<char>
    decreases p.len(),
{
    if p.len() == 0 {
        Seq::empty()
    } else {
        para_block(fmt, p.drop_last()) + sent_block(fmt, p.last())
    }
}

/// The rendered lines of all paragraphs, in original order.
pub open spec fn paras_block<F: Formatter>(fmt: &F, ps: Seq<Seq<SentenceModel>>) -> Seq<char>
    decreases ps.len(),
{
    if ps.len() == 0 {
        Seq::empty()
    } else {
        paras_block(fmt, ps.drop_last()) + para_block(fmt, ps.last())
    }
}

/// The smart-result entries joined on a four-space separator.
pub open spec fn entries_join(es: Seq<Seq<char>>) -> Seq<char>
    decreases es.len(),
{
    if es.len() == 0 {
        Seq::empty()
    } else if es.len() == 1 {
        es[0]
    } else {
        entries_join(es.drop_last()) + "    "@ + es.last()
    }
}

/// The full rendering of a decoded response: the no-result line when the
/// error code is not zero or the paragraphs are absent; otherwise the header,
/// every sentence of every paragraph in order, and the smart-result section
/// (or one empty trailing line in its place).
pub open spec fn explain_spec<F: Formatter>(m: ResponseModel, fmt: &F) -> Seq<char> {
    if m.error_code != 0 || m.translate is None {
        fmt.red_spec("  No translation found"@) + "\n"@
    } else {
        fmt.cyan_spec("  Translation:"@) + paras_block(fmt, m.translate->0) + (match m.smart {
            Some(sm) => "\n"@ + fmt.yellow_spec("\n  Smart result:"@) + "\n"@ + entries_join(
                sm.entries,
            ),
            None => "\n"@,
        })
    }
}

/// The unparsed response body, retained verbatim for callers asking for the
/// raw result: exactly the bytes received, no structural guarantee.
pub struct RawLookupResult {
    pub body: String,
}

impl RawLookupResult {
    pub fn new(body: String) -> (r: RawLookupResult)
        ensures
            r.body@ == body@,
    {
        RawLookupResult { body }
    }
}

fn no_result_line<F: Formatter>(fmt: &F) -> (r: String)
    ensures
        r@ == fmt.red_spec("  No translation found"@) + "\n"@,
{
    let mut out = fmt.red("  No translation found");
    out.append("\n");
    out
}

impl YdResponse {
    /// Decodes a response body: the decoded response exactly when the body
    /// is of the accepted shape, a decode error otherwise.
    pub fn decode(body: &str) -> (r: Result<YdResponse, DecodeError>)
        ensures
            match r {
                Ok(v) => crate::json::decode_spec(body@) == Some(v@),
                Err(_) => crate::json::decode_spec(body@) is None,
            },
    {
        crate::json::decode_body(body)
    }

    /// Decodes an owned response body (the historical constructor used by
    /// the transport).
    pub fn new_raw(result: String) -> (r: Result<YdResponse, DecodeError>)
        ensures
            match r {
                Ok(v) => crate::json::decode_spec(result@) == Some(v@),
                Err(_) => crate::json::decode_spec(result@) is None,
            },
    {
        crate::json::decode_body(result.as_str())
    }

    /// Encodes the response to its canonical JSON text.
    pub fn to_json(&self) -> (r: String)
        ensures
            r@ == crate::json::encode_spec(self@),
    {
        crate::json::encode_response(self)
    }

    /// Renders the response as display text through the given formatter. The
    /// result is exactly `explain_spec` of this response's model.
    pub fn explain<F: Formatter>(&self, fmt: &F) -> (r: String)
        ensures
            r@ == explain_spec(self@, fmt),
    {
        if self.error_code != 0 {
            return no_result_line(fmt);
        }
        match &self.translate_result {
            None => no_result_line(fmt),
            Some(trans) => {
                let ghost ps: Seq<Seq<SentenceModel>> = trans.deep_view();
                let mut out = fmt.cyan("  Translation:");
                let ghost head = out@;
                let mut i: usize = 0;
                while i < trans.len()
                    invariant
                        i <= trans@.len(),
                        ps == trans.deep_view(),
                        ps.len() == trans@.len(),
                        forall|n: int| 0 <= n < trans@.len() ==> ps[n] == trans@[n].deep_view(),
                        out@ == head + paras_block(fmt, ps.take(i as int)),
                    decreases trans@.len() - i,
                {
                    let para = &trans[i];
                    let ghost pv: Seq<SentenceModel> = para.deep_view();
                    let ghost mid = out@;
                    let mut j: usize = 0;
                    while j < para.len()
                        invariant
                            j <= para@.len(),
                            pv == para.deep_view(),
                            pv.len() == para@.len(),
                            forall|n: int| 0 <= n < para@.len() ==> pv[n] == para@[n].deep_view(),
                            out@ == mid + para_block(fmt, pv.take(j as int)),
                        decreases para@.len() - j,
                    {
                        out.append("\n    ");
                        let u = fmt.underline(para[j].source.as_str());
                        out.append(u.as_str());
                        out.append("\n    ");
                        out.append(para[j].target.as_str());
                        j = j + 1;
                        proof {
                            assert(pv.take(j as int).drop_last() =~= pv.take(j as int - 1));
                            assert(pv.take(j as int).last() == pv[j as int - 1]);
                        }
                    }
                    i = i + 1;
                    proof {
                        assert(pv.take(para@.len() as int) =~= pv);
                        assert(ps.take(i as int).drop_last() =~= ps.take(i as int - 1));
                        assert(ps.take(i as int).last() == ps[i as int - 1]);
                    }
                }
                proof {
                    assert(ps.take(trans@.len() as int) =~= ps);
                }
                out.append("\n");
                match &self.smart_result {
                    Some(sm) => {
                        let y = fmt.yellow("\n  Smart result:");
                        out.append(y.as_str());
                        out.append("\n");
                        let ghost base = out@;
                        let ghost es: Seq<Seq<char>> = sm.entries.deep_view();
                        let mut k: usize = 0;
                        while k < sm.entries.len()
                            invariant
                                k <= sm.entries@.len(),
                                es == sm.entries.deep_view(),
                                es.len() == sm.entries@.len(),
                                forall|n: int|
                                    0 <= n < sm.entries@.len() ==> es[n] == sm.entries@[n]@,
                                out@ == base + entries_join(es.take(k as int)),
                            decreases sm.entries@.len() - k,
                        {
                            if k > 0 {
                                out.append("    ");
                            }
                            out.append(sm.entries[k].as_str());
                            k = k + 1;
                            proof {
                                assert(es.take(k as int).drop_last() =~= es.take(k as int - 1));
                                assert(es.take(k as int).last() == es[k as int - 1]);
                                if k == 1 {
                                    assert(base + entries_join(es.take(1)) =~= base + es[0]);
                                }
                            }
                        }
                        proof {
                            assert(es.take(sm.entries@.len() as int) =~= es);
                        }
                    },
                    None => {},
                }
                out
            },
        }
    }
}

} // verus!
