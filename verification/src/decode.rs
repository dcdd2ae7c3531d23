use vstd::prelude::*;

verus! {

/// The closed set of payload formats this service decodes, with an explicit
/// variant for everything else.
#[derive(Clone, Copy, Debug, PartialEq, Eq, Structural)]
pub enum ContentType {
    Json,
    Unsupported,
}

/// The bytes of "application/json".
pub open spec fn json_token() -> Seq<u8> {
    seq![
        97u8, 112u8, 112u8, 108u8, 105u8, 99u8, 97u8, 116u8, 105u8, 111u8, 110u8, 47u8, 106u8,
        115u8, 111u8, 110u8,
    ]
}

/// The header bytes contain "application/json" as a subsequence at some
/// position.
pub open spec fn declares_json(header: Seq<u8>) -> bool {
    exists|i: int|
        0 <= i && i + json_token().len() <= header.len() && (#[trigger] header.subrange(
            i,
            i + json_token().len() as int,
        )) =~= json_token()
}

/// A missing header, or one that does not name "application/json", is
/// classified `Unsupported`; no payload decoding is attempted for it.
pub fn classify_content_type(header: Option<&Vec<u8>>) -> (r: ContentType)
    ensures
        r == ContentType::Json <==> (header matches Some(h) && declares_json(h@)),
{
    let h = match header {
        Some(h) => h,
        None => {
            return ContentType::Unsupported;
        },
    };
    let token: [u8; 16] = [
        97u8, 112u8, 112u8, 108u8, 105u8, 99u8, 97u8, 116u8, 105u8, 111u8, 110u8, 47u8, 106u8,
        115u8, 111u8, 110u8,
    ];
    proof {
        assert(token@ =~= json_token());
        assert(token@ == json_token());
        assert(json_token().len() == 16);
    }
    if h.len() < 16 {
        proof {
            assert(!declares_json(h@));
        }
        return ContentType::Unsupported;
    }
    let mut i: usize = 0;
    while i <= h.len() - 16
        invariant
            header == Some(h),
            token@ == json_token(),
            h.len() >= 16,
            i <= h.len() - 16 + 1,
            forall|j: int|
                0 <= j < i as int ==> !((#[trigger] h@.subrange(j, j + 16)) =~= json_token()),
        decreases h.len() - i,
    {
        let mut k: usize = 0;
        let mut all: bool = true;
        while k < 16
            invariant
                token@ == json_token(),
                all <==> h@.subrange(i as int, i as int + k as int) =~= json_token().subrange(
                    0,
                    k as int,
                ),
                i + 16 <= h.len(),
                k <= 16,
            decreases 16 - k,
        {
            let ghost pa = h@.subrange(i as int, i as int + k as int);
            let ghost pb = json_token().subrange(0, k as int);
            if h[i + k] != token[k] {
                all = false;
            }
            proof {
                let na = h@.subrange(i as int, i as int + k as int + 1);
                let nb = json_token().subrange(0, k as int + 1);
                assert(na =~= pa.push(h@[i as int + k as int]));
                assert(nb =~= pb.push(json_token()[k as int]));
                if all {
                    assert(na =~= nb);
                } else {
                    if na =~= nb {
                        assert(na[k as int] == nb[k as int]);
                        assert forall|m: int| 0 <= m < k as int implies pa[m] == pb[m] by {
                            assert(na[m] == nb[m]);
                        }
                        assert(pa =~= pb);
                        assert(false);
                    }
                }
            }
            k = k + 1;
        }
        proof {
            assert(json_token().subrange(0, 16) =~= json_token());
        }
        if all {
            proof {
                assert(json_token().len() == 16);
                assert((#[trigger] h@.subrange(i as int, i as int + 16)) =~= json_token());
                assert(declares_json(h@));
            }
            return ContentType::Json;
        }
        i = i + 1;
    }
    proof {
        assert forall|j: int|
            0 <= j && j + json_token().len() <= h@.len() implies !((#[trigger] h@.subrange(
            j,
            j + json_token().len() as int,
        )) =~= json_token()) by {
            assert(j < (h.len() - 16 + 1) as int);
        }
    }
    ContentType::Unsupported
}

/// Splits a comma-separated attribute list into the requested field names,
/// as the query parameter `attributesToRetrieve` is written.
pub fn split_attrs(raw: &Vec<u8>) -> (r: Vec<Vec<u8>>)
    ensures
        crate::doc::names_model(r@) == split_on_comma(raw@),
{
    let mut out: Vec<Vec<u8>> = Vec::new();
    let mut cur: Vec<u8> = Vec::new();
    let mut i: usize = 0;
    while i < raw.len()
        invariant
            i <= raw.len(),
            crate::doc::names_model(out@).push(cur@) =~= split_on_comma(raw@.subrange(
                0,
                i as int,
            )),
        decreases raw.len() - i,
    {
        let ghost pre = raw@.subrange(0, i as int);
        let b = raw[i];
        if b == 44 {
            out.push(cur);
            cur = Vec::new();
        } else {
            cur.push(b);
        }
        proof {
            assert(raw@.subrange(0, i as int + 1) =~= pre.push(raw@[i as int]));
            lemma_split_push(pre, raw@[i as int]);
            assert(crate::doc::names_model(out@).push(cur@) =~= split_on_comma(raw@.subrange(
                0,
                i as int + 1,
            )));
        }
        i = i + 1;
    }
    out.push(cur);
    proof {
        assert(raw@.subrange(0, raw@.len() as int) =~= raw@);
        assert(crate::doc::names_model(out@) =~= split_on_comma(raw@));
    }
    out
}

/// The comma-separated pieces of a byte string: one piece more than there
/// are commas, in order, each piece free of commas.
pub open spec fn split_on_comma(s: Seq<u8>) -> Seq<Seq<u8>>
    decreases s.len(),
{
    if s.len() == 0 {
        seq![Seq::empty()]
    } else {
        let rest = split_on_comma(s.drop_last());
        if s.last() == 44 {
            rest.push(Seq::empty())
        } else {
            rest.update(rest.len() - 1, rest.last().push(s.last()))
        }
    }
}

/// `split_on_comma` is never empty, and one byte extends it as the splitter
/// does.
pub proof fn lemma_split_push(s: Seq<u8>, b: u8)
    ensures
        split_on_comma(s).len() >= 1,
        b == 44 ==> split_on_comma(s.push(b)) == split_on_comma(s).push(Seq::empty()),
        b != 44 ==> split_on_comma(s.push(b)) == split_on_comma(s).update(
            split_on_comma(s).len() - 1,
            split_on_comma(s).last().push(b),
        ),
    decreases s.len(),
{
    if s.len() > 0 {
        lemma_split_push(s.drop_last(), s.last());
    }
    assert(s.push(b).drop_last() =~= s);
    assert(s.push(b).last() == b);
}

} // verus!
