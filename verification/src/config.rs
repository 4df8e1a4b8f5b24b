//! Configuration resolution: command-line values override the config
//! file's, and built-in defaults close the gaps.  Reading the file and the
//! environment stays outside the library; this is the pure merge.

use vstd::prelude::*;
use vstd::string::*;

use crate::dispatch::WireApi;
use crate::json::{jview_entries, json_text, obj_field, Json, JsonV};
use crate::text::{is_blank, str_is_blank, text_views};

verus! {

/// The command-line values, each optional.
pub struct Args {
    pub config: Option<String>,
    pub host: Option<String>,
    pub port: Option<u16>,
    pub upstream_url: Option<String>,
    pub upstream_wire: Option<WireApi>,
    pub api_key_env: Option<String>,
    pub server_info: Option<String>,
    pub http_shutdown: bool,
    pub verbose_logging: bool,
    pub drop_tool_types: Vec<String>,
}

/// The config file's values, each optional.
pub struct FileConfig {
    pub host: Option<String>,
    pub port: Option<u16>,
    pub upstream_url: Option<String>,
    pub upstream_wire: Option<WireApi>,
    pub api_key_env: Option<String>,
    pub server_info: Option<String>,
    pub http_shutdown: Option<bool>,
    pub verbose_logging: Option<bool>,
    pub drop_tool_types: Option<Vec<String>>,
}

/// The settled configuration the bridge runs with.
pub struct ResolvedConfig {
    pub host: String,
    pub port: Option<u16>,
    pub upstream_url: String,
    pub upstream_wire: WireApi,
    pub api_key_env: String,
    pub server_info: Option<String>,
    pub http_shutdown: bool,
    pub verbose_logging: bool,
    pub drop_tool_types: Vec<String>,
}

/// The view of an optional string.
pub open spec fn opt_text(o: Option<String>) -> Option<Seq<char>> {
    match o {
        Some(s) => Some(s@),
        None => None,
    }
}

/// First of two optional texts, or the default.
pub open spec fn pick_text(
    a: Option<Seq<char>>,
    b: Option<Seq<char>>,
    d: Seq<char>,
) -> Seq<char> {
    match a {
        Some(x) => x,
        None => match b {
            Some(y) => y,
            None => d,
        },
    }
}

/// The default upstream endpoint for a wire schema.
pub open spec fn default_upstream_url_of(wire: WireApi) -> Seq<char> {
    match wire {
        WireApi::Chat => "https://api.openai.com/v1/chat/completions"@,
        WireApi::Responses => "https://api.openai.com/v1/responses"@,
    }
}

/// The default upstream endpoint for a wire schema.
pub fn default_upstream_url(upstream_wire: WireApi) -> (r: String)
    ensures
        r@ == default_upstream_url_of(upstream_wire),
{
    match upstream_wire {
        WireApi::Chat => "https://api.openai.com/v1/chat/completions".to_owned(),
        WireApi::Responses => "https://api.openai.com/v1/responses".to_owned(),
    }
}

/// The non-blank entries of a string list, in order.
pub open spec fn non_blank_texts(ls: Seq<Seq<char>>) -> Seq<Seq<char>>
    decreases ls,
{
    if ls.len() == 0 {
        Seq::empty()
    } else {
        let rest = non_blank_texts(ls.drop_last());
        if is_blank(ls.last()) {
            rest
        } else {
            rest.push(ls.last())
        }
    }
}

/// Merge the command line over the file over the defaults: flags win, file
/// values fill in, and the dropped tool types are the file's and the
/// flags' together, blanks removed.
pub fn resolve_config(args: Args, file_config: Option<FileConfig>) -> (r: ResolvedConfig)
    ensures
        ({
            let f = match file_config {
                Some(fc) => fc,
                None => FileConfig {
                    host: None,
                    port: None,
                    upstream_url: None,
                    upstream_wire: None,
                    api_key_env: None,
                    server_info: None,
                    http_shutdown: None,
                    verbose_logging: None,
                    drop_tool_types: None,
                },
            };
            let wire = match args.upstream_wire {
                Some(w) => w,
                None => match f.upstream_wire {
                    Some(w) => w,
                    None => WireApi::Chat,
                },
            };
            &&& r.host@ == pick_text(opt_text(args.host), opt_text(f.host), "127.0.0.1"@)
            &&& r.port == (match args.port {
                Some(p) => Some(p),
                None => f.port,
            })
            &&& r.upstream_wire == wire
            &&& r.upstream_url@ == pick_text(
                opt_text(args.upstream_url),
                opt_text(f.upstream_url),
                default_upstream_url_of(wire),
            )
            &&& r.api_key_env@ == pick_text(
                opt_text(args.api_key_env),
                opt_text(f.api_key_env),
                "OPENAI_API_KEY"@,
            )
            &&& opt_text(r.server_info) == (match args.server_info {
                Some(s) => Some(s@),
                None => opt_text(f.server_info),
            })
            &&& r.http_shutdown == (args.http_shutdown || (match f.http_shutdown {
                Some(b) => b,
                None => false,
            }))
            &&& r.verbose_logging == (args.verbose_logging || (match f.verbose_logging {
                Some(b) => b,
                None => false,
            }))
            &&& text_views(r.drop_tool_types@) == non_blank_texts(
                (match f.drop_tool_types {
                    Some(d) => text_views(d@),
                    None => Seq::empty(),
                }) + text_views(args.drop_tool_types@),
            )
        }),
{
    let f: FileConfig = match file_config {
        Some(fc) => fc,
        None => FileConfig {
            host: None,
            port: None,
            upstream_url: None,
            upstream_wire: None,
            api_key_env: None,
            server_info: None,
            http_shutdown: None,
            verbose_logging: None,
            drop_tool_types: None,
        },
    };
    let upstream_wire: WireApi = match args.upstream_wire {
        Some(w) => w,
        None => match f.upstream_wire {
            Some(w) => w,
            None => WireApi::Chat,
        },
    };
    let host: String = match args.host {
        Some(h) => h,
        None => match f.host {
            Some(h) => h,
            None => "127.0.0.1".to_owned(),
        },
    };
    let port: Option<u16> = match args.port {
        Some(p) => Some(p),
        None => f.port,
    };
    let upstream_url: String = match args.upstream_url {
        Some(u) => u,
        None => match f.upstream_url {
            Some(u) => u,
            None => default_upstream_url(upstream_wire),
        },
    };
    let api_key_env: String = match args.api_key_env {
        Some(k) => k,
        None => match f.api_key_env {
            Some(k) => k,
            None => "OPENAI_API_KEY".to_owned(),
        },
    };
    let server_info: Option<String> = match args.server_info {
        Some(s) => Some(s),
        None => f.server_info,
    };
    let http_shutdown: bool = args.http_shutdown || (match f.http_shutdown {
        Some(b) => b,
        None => false,
    });
    let verbose_logging: bool = args.verbose_logging || (match f.verbose_logging {
        Some(b) => b,
        None => false,
    });
    let file_drops: Vec<String> = match f.drop_tool_types {
        Some(d) => d,
        None => Vec::new(),
    };
    let ghost combined: Seq<Seq<char>> = text_views(file_drops@) + text_views(
        args.drop_tool_types@,
    );
    let mut drop_tool_types: Vec<String> = Vec::new();
    proof {
        crate::tools::lemma_text_views_index(file_drops@);
        crate::tools::lemma_text_views_index(args.drop_tool_types@);
        assert(combined.take(0) =~= Seq::<Seq<char>>::empty());
        assert(text_views(drop_tool_types@) =~= non_blank_texts(combined.take(0)));
    }
    let fn_ = file_drops.len();
    let an = args.drop_tool_types.len();
    let mut i: usize = 0;
    while i < fn_
        invariant
            0 <= i <= fn_,
            fn_ == file_drops@.len(),
            combined == text_views(file_drops@) + text_views(args.drop_tool_types@),
            combined.len() == fn_ + args.drop_tool_types@.len(),
            forall|j: int| 0 <= j < fn_ ==> combined[j] == (#[trigger] file_drops@[j])@,
            text_views(drop_tool_types@) == non_blank_texts(combined.take(i as int)),
        decreases fn_ - i,
    {
        let s = &file_drops[i];
        let ghost before = drop_tool_types@;
        if !str_is_blank(s.as_str()) {
            drop_tool_types.push(s.clone());
            proof {
                assert(drop_tool_types@.drop_last() =~= before);
                assert(text_views(drop_tool_types@) == text_views(before).push(s@));
            }
        }
        proof {
            assert(combined.take(i + 1 as int).drop_last() =~= combined.take(i as int));
            assert(combined.take(i + 1 as int).last() == combined[i as int]);
        }
        i = i + 1;
    }
    let mut k: usize = 0;
    while k < an
        invariant
            0 <= k <= an,
            an == args.drop_tool_types@.len(),
            fn_ == file_drops@.len(),
            combined == text_views(file_drops@) + text_views(args.drop_tool_types@),
            combined.len() == fn_ + an,
            forall|j: int| 0 <= j < an ==> combined[fn_ + j] == (
                #[trigger] args.drop_tool_types@[j]
            )@,
            text_views(drop_tool_types@) == non_blank_texts(combined.take(fn_ + k)),
        decreases an - k,
    {
        let s = &args.drop_tool_types[k];
        let ghost before = drop_tool_types@;
        if !str_is_blank(s.as_str()) {
            drop_tool_types.push(s.clone());
            proof {
                assert(drop_tool_types@.drop_last() =~= before);
                assert(text_views(drop_tool_types@) == text_views(before).push(s@));
            }
        }
        proof {
            assert(combined.take(fn_ + k + 1).drop_last() =~= combined.take(fn_ + k));
            assert(combined.take(fn_ + k + 1).last() == combined[fn_ + k]);
        }
        k = k + 1;
    }
    proof {
        assert(combined.take(fn_ + an) =~= combined);
    }
    ResolvedConfig {
        host,
        port,
        upstream_url,
        upstream_wire,
        api_key_env,
        server_info,
        http_shutdown,
        verbose_logging,
        drop_tool_types,
    }
}

/// The one-line JSON descriptor of the bound port, written at startup.
pub fn server_info_line(port: u16, pid: u32) -> (r: String)
    ensures
        r@ == json_text(
            JsonV::Obj(
                seq![("port"@, JsonV::Int(port as int)), ("pid"@, JsonV::Int(pid as int))],
            ),
        ) + "\n"@,
{
    let mut o: Vec<(String, Json)> = Vec::new();
    obj_field(&mut o, "port", Json::Int(port as i64));
    obj_field(&mut o, "pid", Json::Int(pid as i64));
    proof {
        assert(jview_entries(o@) =~= seq![
            ("port"@, JsonV::Int(port as int)),
            ("pid"@, JsonV::Int(pid as int)),
        ]);
    }
    let doc = Json::Obj(o);
    let mut line = doc.to_text();
    line.append("\n");
    line
}

} // verus!
