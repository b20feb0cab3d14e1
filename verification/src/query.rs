//! Query resolution: answering one decoded request against the current
//! catalog snapshot.
//!
//! An update query selects, among the descriptors with the asked name whose
//! track the caller may see (stable always; beta only on opt-in), the one of
//! maximum version — on a tie, the latest-loaded. The caller's own version
//! text must parse; it is never compared otherwise. A metadata query uses
//! the same eligibility rule and answers display metadata instead.

use vstd::prelude::*;
use crate::catalog::{file_view_of, Plugin};
use crate::codec::{
    decode_request, decode_request_spec, encode_metadata, encode_metadata_spec, encode_response,
    encode_response_spec,
};
use crate::protocol::{
    blank_resp, MetaV, PluginMetadata, ReqV, Request, RespV, ResponseCode, UpdateFile,
    UpdateResponse,
};
use crate::version::{
    lemma_version_lt_irrefl, lemma_version_lt_trans, lemma_version_lt_trichotomy, parsed_version,
    version_lt, version_lt_exec,
};

verus! {

/// Whether one descriptor answers for `name` under the caller's beta filter.
pub open spec fn eligible(p: Plugin, name: Seq<char>, beta: bool) -> bool {
    p.name@ == name && (beta || !p.beta)
}

/// The descriptor an update query selects: scanning the catalog in load
/// order, an eligible candidate replaces the champion whenever it is not
/// strictly below it — so the last of maximal version wins.
pub open spec fn best_eligible(ps: Seq<Plugin>, name: Seq<char>, beta: bool) -> Option<int>
    decreases ps.len(),
{
    if ps.len() == 0 {
        None
    } else {
        let last = ps.len() - 1;
        let prior = best_eligible(ps.drop_last(), name, beta);
        if !eligible(ps[last], name, beta) {
            prior
        } else {
            match prior {
                None => Some(last),
                Some(i) => if version_lt(ps[last].plugin_version@, ps[i].plugin_version@) {
                    Some(i)
                } else {
                    Some(last)
                },
            }
        }
    }
}

/// The selected descriptor is eligible and of maximal version among the
/// eligible ones (and the last such); none is selected only when none is
/// eligible.
pub proof fn lemma_best_eligible(ps: Seq<Plugin>, name: Seq<char>, beta: bool)
    ensures
        match best_eligible(ps, name, beta) {
            Some(i) => {
                &&& 0 <= i < ps.len()
                &&& eligible(ps[i], name, beta)
                &&& forall|j: int|
                    #![trigger ps[j]]
                    0 <= j < ps.len() && eligible(ps[j], name, beta) ==> !version_lt(
                        ps[i].plugin_version@,
                        ps[j].plugin_version@,
                    )
                &&& forall|j: int|
                    #![trigger ps[j]]
                    i < j < ps.len() && eligible(ps[j], name, beta) ==> version_lt(
                        ps[j].plugin_version@,
                        ps[i].plugin_version@,
                    )
            },
            None => forall|j: int|
                #![trigger ps[j]]
                0 <= j < ps.len() ==> !eligible(ps[j], name, beta),
        },
    decreases ps.len(),
{
    if ps.len() > 0 {
        let last = ps.len() - 1;
        let dl = ps.drop_last();
        lemma_best_eligible(dl, name, beta);
        assert forall|j: int| 0 <= j < last implies #[trigger] ps[j] == dl[j] by {
            assert(dl[j] == ps[j]);
        }
        lemma_version_lt_irrefl(ps[last].plugin_version@);
        if eligible(ps[last], name, beta) {
            match best_eligible(dl, name, beta) {
                None => {
                    // The candidate is the only eligible descriptor.
                },
                Some(i) => {
                    if version_lt(ps[last].plugin_version@, ps[i].plugin_version@) {
                        // The champion stays; the candidate sits strictly below it.
                        if version_lt(ps[i].plugin_version@, ps[last].plugin_version@) {
                            lemma_version_lt_trans(
                                ps[last].plugin_version@,
                                ps[i].plugin_version@,
                                ps[last].plugin_version@,
                            );
                        }
                    } else {
                        // The candidate takes over: nothing eligible sits above it.
                        lemma_version_lt_trichotomy(
                            ps[last].plugin_version@,
                            ps[i].plugin_version@,
                        );
                        assert forall|j: int|
                            #![trigger ps[j]]
                            0 <= j < ps.len() && eligible(ps[j], name, beta) implies !version_lt(
                            ps[last].plugin_version@,
                            ps[j].plugin_version@,
                        ) by {
                            if j < last {
                                assert(ps[j] == dl[j]);
                                if version_lt(ps[last].plugin_version@, ps[j].plugin_version@) {
                                    if version_lt(
                                        ps[i].plugin_version@,
                                        ps[last].plugin_version@,
                                    ) {
                                        lemma_version_lt_trans(
                                            ps[i].plugin_version@,
                                            ps[last].plugin_version@,
                                            ps[j].plugin_version@,
                                        );
                                    }
                                }
                            }
                        }
                    }
                },
            }
        }
    }
}

fn best_eligible_exec(ps: &Vec<Plugin>, name: &String, beta: bool) -> (r: Option<usize>)
    ensures
        match r {
            Some(i) => i < ps@.len() && best_eligible(ps@, name@, beta) == Some(i as int),
            None => best_eligible(ps@, name@, beta) is None,
        },
{
    let n = ps.len();
    let mut best: Option<usize> = None;
    let mut j: usize = 0;
    proof {
        assert(ps@.take(0) =~= Seq::<Plugin>::empty());
    }
    while j < n
        invariant
            n == ps@.len(),
            j <= n,
            match best {
                Some(i) => i < j && best_eligible(ps@.take(j as int), name@, beta) == Some(
                    i as int,
                ),
                None => best_eligible(ps@.take(j as int), name@, beta) is None,
            },
        decreases n - j,
    {
        let ghost pre = ps@.take(j as int + 1);
        proof {
            assert(pre.drop_last() =~= ps@.take(j as int));
            assert(pre[j as int] == ps@[j as int]);
        }
        let p = &ps[j];
        let ok = if beta {
            p.name == *name
        } else {
            p.name == *name && !p.beta
        };
        if ok {
            match best {
                None => {
                    best = Some(j);
                },
                Some(i) => {
                    if version_lt_exec(&p.plugin_version, &ps[i].plugin_version) {
                        // champion stays
                    } else {
                        best = Some(j);
                    }
                },
            }
        }
        j += 1;
    }
    proof {
        assert(ps@.take(n as int) =~= ps@);
    }
    best
}

/// The response an update query gets, as a value of the response view.
pub open spec fn update_reply(
    ps: Seq<Plugin>,
    name: Seq<char>,
    version: Seq<char>,
    beta: bool,
) -> RespV {
    match best_eligible(ps, name, beta) {
        None => blank_resp(ResponseCode::PluginNotFound),
        Some(i) => match parsed_version(version) {
            None => blank_resp(ResponseCode::InvalidRequest),
            Some(cv) => if version_lt(cv, ps[i].plugin_version@) {
                RespV {
                    code: ResponseCode::Update,
                    update_plugin: true,
                    update_skyline: false,
                    plugin_name: name,
                    new_plugin_version: ps[i].version_text@,
                    new_skyline_version: None,
                    required_files: ps[i].files@.map_values(|f: crate::catalog::PluginFile|
                        file_view_of(f)),
                }
            } else {
                blank_resp(ResponseCode::NoUpdate)
            },
        },
    }
}

/// The laws of update resolution. With no eligible descriptor the answer is
/// `PluginNotFound`, whatever the version text. With one, an unparsable
/// version text answers `InvalidRequest`; a parsed one answers `Update`
/// exactly when it sits strictly below the maximum eligible version, else
/// `NoUpdate`.
pub proof fn lemma_update_reply_code(
    ps: Seq<Plugin>,
    name: Seq<char>,
    version: Seq<char>,
    beta: bool,
)
    ensures
        ({
            let r = update_reply(ps, name, version, beta);
            match best_eligible(ps, name, beta) {
                None => r.code == ResponseCode::PluginNotFound && (forall|j: int|
                    #![trigger ps[j]]
                    0 <= j < ps.len() ==> !eligible(ps[j], name, beta)),
                Some(i) => {
                    &&& 0 <= i < ps.len()
                    &&& eligible(ps[i], name, beta)
                    &&& forall|j: int|
                        #![trigger ps[j]]
                        0 <= j < ps.len() && eligible(ps[j], name, beta) ==> version_lt(
                            ps[j].plugin_version@,
                            ps[i].plugin_version@,
                        ) || ps[j].plugin_version@ == ps[i].plugin_version@
                    &&& match parsed_version(version) {
                        None => r.code == ResponseCode::InvalidRequest,
                        Some(cv) => (r.code == ResponseCode::Update <==> version_lt(
                            cv,
                            ps[i].plugin_version@,
                        )) && (r.code == ResponseCode::NoUpdate <==> !version_lt(
                            cv,
                            ps[i].plugin_version@,
                        )),
                    }
                },
            }
        }),
{
    lemma_best_eligible(ps, name, beta);
    match best_eligible(ps, name, beta) {
        None => {},
        Some(i) => {
            assert forall|j: int|
                #![trigger ps[j]]
                0 <= j < ps.len() && eligible(ps[j], name, beta) implies version_lt(
                ps[j].plugin_version@,
                ps[i].plugin_version@,
            ) || ps[j].plugin_version@ == ps[i].plugin_version@ by {
                lemma_version_lt_trichotomy(ps[j].plugin_version@, ps[i].plugin_version@);
            }
        },
    }
}

/// Resolve one update query against the catalog.
pub fn resolve_update(
    ps: &Vec<Plugin>,
    plugin_name: &String,
    plugin_version: &String,
    beta: bool,
) -> (r: UpdateResponse)
    ensures
        r@ == update_reply(ps@, plugin_name@, plugin_version@, beta),
{
    match best_eligible_exec(ps, plugin_name, beta) {
        None => UpdateResponse::plugin_not_found(),
        Some(i) => {
            match crate::version::parse_version(plugin_version.as_str()) {
                None => UpdateResponse::invalid_request(),
                Some(cv) => {
                    let p = &ps[i];
                    if version_lt_exec(&cv, &p.plugin_version) {
                        let n = p.files.len();
                        let mut files: Vec<UpdateFile> = Vec::new();
                        let mut k: usize = 0;
                        while k < n
                            invariant
                                n == p.files@.len(),
                                k <= n,
                                files@.len() == k,
                                forall|m: int|
                                    0 <= m < k ==> (#[trigger] files@[m])@ == file_view_of(
                                        p.files@[m],
                                    ),
                            decreases n - k,
                        {
                            files.push(p.files[k].to_update_file());
                            k += 1;
                        }
                        let r = UpdateResponse {
                            code: ResponseCode::Update,
                            update_plugin: true,
                            update_skyline: false,
                            plugin_name: plugin_name.clone(),
                            new_plugin_version: p.version_text.clone(),
                            new_skyline_version: None,
                            required_files: files,
                        };
                        proof {
                            assert(r@.required_files =~= ps@[i as int].files@.map_values(
                                |f: crate::catalog::PluginFile| file_view_of(f),
                            ));
                            assert(r@ =~~= update_reply(ps@, plugin_name@, plugin_version@, beta));
                        }
                        r
                    } else {
                        UpdateResponse::no_update()
                    }
                },
            }
        },
    }
}

/// The answer a metadata query gets, when a descriptor is eligible.
pub open spec fn meta_reply(ps: Seq<Plugin>, name: Seq<char>, beta: bool) -> Option<MetaV> {
    match best_eligible(ps, name, beta) {
        None => None,
        Some(i) => Some(
            MetaV {
                name: match ps[i].meta_name {
                    Some(s) => Some(s@),
                    None => None,
                },
                description: match ps[i].meta_description {
                    Some(s) => Some(s@),
                    None => None,
                },
                images_index: ps[i].images_index,
                image_count: ps[i].image_count,
                changelog_index: match ps[i].changelog_index {
                    Some(c) => c,
                    None => u64::MAX,
                },
            },
        ),
    }
}

/// Resolve one metadata query against the catalog: the display metadata of
/// the selected descriptor, or nothing when no track is eligible. An absent
/// blob is signalled by `u64::MAX`, which no table index of this service
/// reaches.
pub fn resolve_metadata(ps: &Vec<Plugin>, plugin_name: &String, beta: bool) -> (r: Option<
    PluginMetadata,
>)
    ensures
        match r {
            Some(m) => meta_reply(ps@, plugin_name@, beta) == Some(m@),
            None => meta_reply(ps@, plugin_name@, beta) is None,
        },
{
    match best_eligible_exec(ps, plugin_name, beta) {
        None => None,
        Some(i) => {
            let p = &ps[i];
            let m = PluginMetadata {
                name: match &p.meta_name {
                    Some(s) => Some(s.clone()),
                    None => None,
                },
                description: match &p.meta_description {
                    Some(s) => Some(s.clone()),
                    None => None,
                },
                images_index: p.images_index,
                image_count: p.image_count,
                changelog_index: match p.changelog_index {
                    Some(c) => c,
                    None => u64::MAX,
                },
            };
            Some(m)
        },
    }
}

/// Serve one query-port line: decode the request, resolve it against the
/// snapshot, and encode the one answer line. A payload that does not decode
/// answers `InvalidRequest`; a metadata query without an eligible track
/// answers `PluginNotFound`.
pub fn handle_query_line(ps: &Vec<Plugin>, line: &Vec<u8>) -> (out: Vec<u8>)
    ensures
        match decode_request_spec(line@) {
            None => out@ == encode_response_spec(blank_resp(ResponseCode::InvalidRequest)),
            Some(rv) => match rv {
                ReqV::Update { plugin_name, plugin_version, beta, has_options } => out@
                    == encode_response_spec(update_reply(ps@, plugin_name, plugin_version, match beta {
                    Some(b) => b,
                    None => false,
                })),
                ReqV::Metadata { plugin_name, beta } => match meta_reply(ps@, plugin_name, match beta {
                    Some(b) => b,
                    None => false,
                }) {
                    Some(m) => out@ == encode_metadata_spec(m),
                    None => out@ == encode_response_spec(blank_resp(ResponseCode::PluginNotFound)),
                },
            },
        },
{
    match decode_request(line) {
        None => encode_response(&UpdateResponse::invalid_request()),
        Some(req) => match req {
            Request::Update { plugin_name, plugin_version, beta, options: _ } => {
                let b = match beta {
                    Some(x) => x,
                    None => false,
                };
                let resp = resolve_update(ps, &plugin_name, &plugin_version, b);
                encode_response(&resp)
            },
            Request::Metadata { plugin_name, beta } => {
                let b = match beta {
                    Some(x) => x,
                    None => false,
                };
                match resolve_metadata(ps, &plugin_name, b) {
                    Some(m) => encode_metadata(&m),
                    None => encode_response(&UpdateResponse::plugin_not_found()),
                }
            },
        },
    }
}

} // verus!
