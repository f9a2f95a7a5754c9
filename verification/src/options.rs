//! Server options parsed from a sectioned config text: the hosted
//! directory, index file, connection limit, keep-alive time, listen
//! addresses, and the redirect, route and forward tables. Reading the
//! file and resolving addresses stay outside; the text comes in as
//! bytes and addresses stay verbatim.

use crate::ascii::{
    find_byte, spec_find, spec_lines, spec_trim, spec_trim_b, split_lines, trim, trim_matching,
};
use crate::headers::Headers;
use vstd::prelude::*;
use vstd::slice::{slice_subrange, slice_to_vec};
use vstd::string::StringSliceAdditionalSpecFns;

verus! {

/// What went wrong with the options.
#[derive(Debug, Clone, Copy, PartialEq, Eq, Structural)]
pub enum ErrorKind {
    /// Reading failed, or a line is missing its delimiter.
    IOError,
    /// A numeric entry did not parse or does not fit.
    ParseIntError,
    /// An address did not parse.
    ParseAddrError,
    /// A section header misses its closing bracket.
    BadSection,
    /// An entry stands before any section header.
    MissingSection,
    /// A section header names no known section.
    UnknownSection,
    /// A `[defaults]` entry names no known option.
    UnknownEntry,
}

/// An options error: its kind and a short text for logs.
#[derive(Debug)]
pub struct Error {
    pub kind: ErrorKind,
    pub message: &'static str,
}

impl Error {
    pub fn new(kind: ErrorKind, message: &'static str) -> (r: Error)
        ensures
            r.kind == kind,
            r.message == message,
    {
        Error { kind, message }
    }
}

/// Are all bytes decimal digits (and is there at least one)?
pub open spec fn spec_all_digits(s: Seq<u8>) -> bool {
    s.len() > 0 && forall|i: int| 0 <= i < s.len() ==> 48 <= #[trigger] s[i] <= 57
}

/// The number the digits spell.
pub open spec fn spec_dec_value(s: Seq<u8>) -> int
    decreases s.len(),
{
    if s.len() == 0 {
        0
    } else {
        spec_dec_value(s.drop_last()) * 10 + (s.last() - 48)
    }
}

proof fn lemma_dec_nonneg(s: Seq<u8>)
    requires
        forall|i: int| 0 <= i < s.len() ==> 48 <= #[trigger] s[i] <= 57,
    ensures
        spec_dec_value(s) >= 0,
    decreases s.len(),
{
    if s.len() > 0 {
        lemma_dec_nonneg(s.drop_last());
    }
}

proof fn lemma_dec_prefix(s: Seq<u8>, i: int)
    requires
        forall|j: int| 0 <= j < s.len() ==> 48 <= #[trigger] s[j] <= 57,
        0 <= i <= s.len(),
    ensures
        spec_dec_value(s.take(i)) <= spec_dec_value(s),
    decreases s.len() - i,
{
    if i == s.len() {
        assert(s.take(i) =~= s);
    } else {
        lemma_dec_prefix(s, i + 1);
        assert(s.take(i + 1).drop_last() =~= s.take(i));
        assert(forall|j: int| 0 <= j < i ==> s.take(i)[j] == s[j]);
        lemma_dec_nonneg(s.take(i));
    }
}

/// Parse a decimal number, refusing non-digits and overflow.
pub fn parse_u64(s: &[u8]) -> (r: Option<u64>)
    ensures
        r is Some <==> spec_all_digits(s@) && spec_dec_value(s@) <= u64::MAX,
        r is Some ==> r->0 == spec_dec_value(s@),
{
    if s.len() == 0 {
        return None;
    }
    let mut acc: u64 = 0;
    let mut i: usize = 0;
    while i < s.len()
        invariant
            i <= s.len(),
            s@.len() > 0,
            forall|j: int| 0 <= j < i ==> 48 <= #[trigger] s@[j] <= 57,
            acc == spec_dec_value(s@.take(i as int)),
        decreases s.len() - i,
    {
        let b = s[i];
        if b < 48 || b > 57 {
            return None;
        }
        let step = match acc.checked_mul(10) {
            None => None,
            Some(x) => x.checked_add((b - 48) as u64),
        };
        proof {
            assert(s@.take(i + 1).drop_last() =~= s@.take(i as int));
            assert(s@.take(i + 1).last() == s@[i as int]);
        }
        match step {
            None => {
                proof {
                    if spec_all_digits(s@) {
                        lemma_dec_prefix(s@, i + 1);
                    }
                }
                return None;
            },
            Some(x) => {
                acc = x;
            },
        }
        i = i + 1;
    }
    proof {
        assert(s@.take(s@.len() as int) =~= s@);
    }
    Some(acc)
}

/// The abstract options record.
pub struct OptionsModel {
    pub directory: Seq<u8>,
    pub index_file: Seq<u8>,
    pub client_limit: int,
    pub keep_alive_secs: int,
    pub hosts: Seq<Seq<u8>>,
    pub redirects: Map<Seq<u8>, Seq<u8>>,
    pub routes: Map<Seq<u8>, Seq<u8>>,
    pub forward: Map<Seq<u8>, Seq<u8>>,
}

/// The options before any config entry is applied.
pub open spec fn spec_default_model() -> OptionsModel {
    OptionsModel {
        directory: "./src".spec_bytes(),
        index_file: "index.html".spec_bytes(),
        client_limit: 128,
        keep_alive_secs: 10,
        hosts: seq!["127.0.0.1:8080".spec_bytes()],
        redirects: Map::<Seq<u8>, Seq<u8>>::empty(),
        routes: Map::<Seq<u8>, Seq<u8>>::empty(),
        forward: Map::<Seq<u8>, Seq<u8>>::empty(),
    }
}

/// The key/value pair at the first `:`, both sides trimmed.
pub open spec fn spec_kvp_colon(l: Seq<u8>) -> Option<(Seq<u8>, Seq<u8>)> {
    let c = spec_find(l, 58);
    if 0 <= c < l.len() {
        Some((spec_trim(l.take(c)), spec_trim(l.skip(c + 1))))
    } else {
        None
    }
}

/// The key/value pair at the first `->`, both sides trimmed.
pub open spec fn spec_kvp_arrow(l: Seq<u8>) -> Option<(Seq<u8>, Seq<u8>)> {
    let a = crate::config_file::spec_find_arrow(l);
    if 0 <= a && a + 2 <= l.len() {
        Some((spec_trim(l.take(a)), spec_trim(l.skip(a + 2))))
    } else {
        None
    }
}

/// Apply one non-empty entry line under its section.
pub open spec fn spec_apply_entry(m: OptionsModel, section: Seq<u8>, l: Seq<u8>) -> Result<
    OptionsModel,
    ErrorKind,
> {
    if section == "defaults".spec_bytes() {
        match spec_kvp_colon(l) {
            None => Err(ErrorKind::IOError),
            Some((k, v)) => {
                if k == "directory".spec_bytes() {
                    Ok(OptionsModel { directory: spec_trim_b(v, 34), ..m })
                } else if k == "index_file".spec_bytes() {
                    Ok(OptionsModel { index_file: spec_trim_b(v, 34), ..m })
                } else if k == "client_limit".spec_bytes() {
                    if spec_all_digits(v) && spec_dec_value(v) <= usize::MAX {
                        Ok(OptionsModel { client_limit: spec_dec_value(v), ..m })
                    } else {
                        Err(ErrorKind::ParseIntError)
                    }
                } else if k == "keep_alive".spec_bytes() {
                    if spec_all_digits(v) && spec_dec_value(v) <= u64::MAX {
                        Ok(OptionsModel { keep_alive_secs: spec_dec_value(v), ..m })
                    } else {
                        Err(ErrorKind::ParseIntError)
                    }
                } else {
                    Err(ErrorKind::UnknownEntry)
                }
            },
        }
    } else if section == "hosts".spec_bytes() {
        Ok(OptionsModel { hosts: m.hosts.push(l), ..m })
    } else if section == "redirects".spec_bytes() {
        match spec_kvp_arrow(l) {
            None => Err(ErrorKind::IOError),
            Some((k, v)) => Ok(OptionsModel { redirects: m.redirects.insert(k, v), ..m }),
        }
    } else if section == "routes".spec_bytes() {
        match spec_kvp_arrow(l) {
            None => Err(ErrorKind::IOError),
            Some((k, v)) => Ok(OptionsModel { routes: m.routes.insert(k, v), ..m }),
        }
    } else if section == "forward".spec_bytes() {
        match spec_kvp_arrow(l) {
            None => Err(ErrorKind::IOError),
            Some((k, v)) => Ok(OptionsModel { forward: m.forward.insert(k, v), ..m }),
        }
    } else {
        Err(ErrorKind::UnknownSection)
    }
}

/// Fold a run of lines over the options, tracking the current section
/// (empty until the first header).
pub open spec fn spec_opts_lines(m: OptionsModel, section: Seq<u8>, lines: Seq<Seq<u8>>) -> Result<
    OptionsModel,
    ErrorKind,
>
    decreases lines.len(),
{
    if lines.len() == 0 {
        Ok(m)
    } else {
        let l = spec_trim(crate::config_file::spec_strip_comment(lines[0]));
        if l.len() == 0 {
            spec_opts_lines(m, section, lines.drop_first())
        } else if l[0] == 91 {
            if l.last() != 93 {
                Err(ErrorKind::BadSection)
            } else {
                spec_opts_lines(m, l.subrange(1, l.len() - 1), lines.drop_first())
            }
        } else if section.len() == 0 {
            Err(ErrorKind::MissingSection)
        } else {
            match spec_apply_entry(m, section, l) {
                Err(k) => Err(k),
                Ok(m2) => spec_opts_lines(m2, section, lines.drop_first()),
            }
        }
    }
}

/// What a whole options text denotes; when more than the default host
/// is present, the default is dropped.
pub open spec fn spec_parse_options(src: Seq<u8>) -> Result<OptionsModel, ErrorKind> {
    match spec_opts_lines(spec_default_model(), Seq::<u8>::empty(), spec_lines(src)) {
        Err(k) => Err(k),
        Ok(m) => Ok(
            if m.hosts.len() > 1 {
                OptionsModel { hosts: m.hosts.drop_first(), ..m }
            } else {
                m
            },
        ),
    }
}

/// The server's options: directory and index file, connection limit,
/// keep-alive time, listen addresses (verbatim text, resolved by the
/// caller), and the redirect, route and forward tables.
#[derive(Debug)]
pub struct HttpOptions {
    pub directory: Vec<u8>,
    pub index_file: Vec<u8>,
    pub client_limit: usize,
    pub keep_alive_secs: u64,
    pub hosts: Vec<Vec<u8>>,
    pub redirects: Headers,
    pub routes: Headers,
    pub forward: Headers,
}

impl HttpOptions {
    /// The options as the spec sees them.
    pub open spec fn model(&self) -> OptionsModel {
        OptionsModel {
            directory: self.directory@,
            index_file: self.index_file@,
            client_limit: self.client_limit as int,
            keep_alive_secs: self.keep_alive_secs as int,
            hosts: self.hosts@.map_values(|h: Vec<u8>| h@),
            redirects: self.redirects.as_map(),
            routes: self.routes.as_map(),
            forward: self.forward.as_map(),
        }
    }

    pub open spec fn wf(&self) -> bool {
        self.redirects.wf() && self.routes.wf() && self.forward.wf()
    }

    /// Parse an options text.
    pub fn parse_source(source: &[u8]) -> (r: Result<HttpOptions, Error>)
        ensures
            r is Ok <==> spec_parse_options(source@) is Ok,
            r is Ok ==> r->Ok_0.wf() && r->Ok_0.model() == spec_parse_options(source@)->Ok_0,
            r is Err ==> r->Err_0.kind == spec_parse_options(source@)->Err_0,
    {
        let lines = split_lines(source);
        let ghost lv = lines@.map_values(|v: Vec<u8>| v@);
        let mut opts = HttpOptions::default();
        let mut section: Vec<u8> = Vec::new();
        let ghost target = spec_opts_lines(spec_default_model(), Seq::<u8>::empty(), lv);
        let mut i: usize = 0;
        proof {
            assert(lv.skip(0) =~~= lv);
            assert(opts.model().hosts =~~= spec_default_model().hosts);
            assert(opts.model() == spec_default_model());
        }
        while i < lines.len()
            invariant
                i <= lines.len(),
                lv == lines@.map_values(|v: Vec<u8>| v@),
                lv == crate::ascii::spec_lines(source@),
                target == spec_opts_lines(spec_default_model(), Seq::<u8>::empty(), lv),
                opts.wf(),
                target == spec_opts_lines(opts.model(), section@, lv.skip(i as int)),
            decreases lines.len() - i,
        {
            proof {
                assert(lv.skip(i as int)[0] == lv[i as int]);
                assert(lv.skip(i as int).drop_first() =~~= lv.skip(i as int + 1));
            }
            let ghost rest = lv.skip(i as int);
            let stripped = crate::config_file::strip_comment(lines[i].as_slice());
            let l = trim(stripped);
            proof {
                assert(l@ == spec_trim(crate::config_file::spec_strip_comment(rest[0])));
            }
            if l.len() == 0 {
            } else if l[0] == 91 {
                if l[l.len() - 1] != 93 {
                    proof {
                        assert(spec_opts_lines(opts.model(), section@, rest) == Result::<
                            OptionsModel,
                            ErrorKind,
                        >::Err(ErrorKind::BadSection));
                    }
                    return Err(Error::new(ErrorKind::BadSection, "Invalid section"));
                }
                section = slice_to_vec(slice_subrange(l.as_slice(), 1, l.len() - 1));
                proof {
                    assert(section@ == l@.subrange(1, l@.len() - 1));
                }
            } else if section.len() == 0 {
                proof {
                    assert(spec_opts_lines(opts.model(), section@, rest) == Result::<
                        OptionsModel,
                        ErrorKind,
                    >::Err(ErrorKind::MissingSection));
                }
                return Err(
                    Error::new(ErrorKind::MissingSection, "Section not specified for item"),
                );
            } else {
                let ghost m_before = opts.model();
                match Self::apply_entry(&mut opts, section.as_slice(), l.as_slice()) {
                    Ok(()) => {
                        proof {
                            assert(spec_opts_lines(m_before, section@, rest) == spec_opts_lines(
                                opts.model(),
                                section@,
                                rest.drop_first(),
                            ));
                        }
                    },
                    Err(e) => {
                        proof {
                            assert(spec_opts_lines(m_before, section@, rest) == Result::<
                                OptionsModel,
                                ErrorKind,
                            >::Err(e.kind));
                        }
                        return Err(e);
                    },
                }
            }
            i = i + 1;
        }
        proof {
            assert(lv.skip(lines@.len() as int) =~~= Seq::<Seq<u8>>::empty());
        }
        if opts.hosts.len() > 1 {
            let ghost hosts0 = opts.hosts@.map_values(|h: Vec<u8>| h@);
            opts.hosts.remove(0);
            proof {
                assert(opts.hosts@.map_values(|h: Vec<u8>| h@) =~~= hosts0.drop_first());
            }
        }
        Ok(opts)
    }

    /// Apply one entry line under its section; on failure the options
    /// are unchanged.
    fn apply_entry(opts: &mut HttpOptions, section: &[u8], l: &[u8]) -> (r: Result<(), Error>)
        requires
            old(opts).wf(),
            section@.len() > 0,
        ensures
            final(opts).wf(),
            r is Ok <==> spec_apply_entry(old(opts).model(), section@, l@) is Ok,
            r is Ok ==> final(opts).model() == spec_apply_entry(old(opts).model(), section@, l@)->Ok_0,
            r is Err ==> r->Err_0.kind == spec_apply_entry(old(opts).model(), section@, l@)->Err_0
                && final(opts).model() == old(opts).model(),
    {
        let ghost m0 = opts.model();
        if crate::ascii::bytes_is(section, "defaults") {
            let c = match find_byte(l, 58) {
                None => {
                    proof {
                        assert(spec_apply_entry(m0, section@, l@) == Result::<
                            OptionsModel,
                            ErrorKind,
                        >::Err(ErrorKind::IOError));
                    }
                    return Err(Error::new(ErrorKind::IOError, "Invalid settings entry"));
                },
                Some(c) => c,
            };
            let n = l.len();
            assert(c < n);
            let key = trim(slice_subrange(l, 0, c));
            let value = trim(slice_subrange(l, c + 1, n));
            if crate::ascii::bytes_is(key.as_slice(), "directory") {
                opts.directory = trim_matching(value.as_slice(), 34);
                assert(opts.model() =~~= spec_apply_entry(m0, section@, l@)->Ok_0);
                Ok(())
            } else if crate::ascii::bytes_is(key.as_slice(), "index_file") {
                opts.index_file = trim_matching(value.as_slice(), 34);
                assert(opts.model() =~~= spec_apply_entry(m0, section@, l@)->Ok_0);
                Ok(())
            } else if crate::ascii::bytes_is(key.as_slice(), "client_limit") {
                match parse_u64(value.as_slice()) {
                    Some(v) => {
                        if v <= (usize::MAX as u64) {
                            opts.client_limit = v as usize;
                            assert(opts.model() =~~= spec_apply_entry(m0, section@, l@)->Ok_0);
                            return Ok(());
                        }
                        proof {
                            assert(spec_apply_entry(m0, section@, l@) == Result::<
                                OptionsModel,
                                ErrorKind,
                            >::Err(ErrorKind::ParseIntError));
                        }
                        Err(Error::new(ErrorKind::ParseIntError, "Bad client limit"))
                    },
                    None => {
                        proof {
                            assert(opts.wf());
                            assert(spec_apply_entry(m0, section@, l@) == Result::<
                                OptionsModel,
                                ErrorKind,
                            >::Err(ErrorKind::ParseIntError));
                        }
                        Err(Error::new(ErrorKind::ParseIntError, "Bad client limit"))
                    },
                }
            } else if crate::ascii::bytes_is(key.as_slice(), "keep_alive") {
                match parse_u64(value.as_slice()) {
                    Some(v) => {
                        opts.keep_alive_secs = v;
                        assert(opts.model() =~~= spec_apply_entry(m0, section@, l@)->Ok_0);
                        Ok(())
                    },
                    None => {
                        proof {
                            assert(spec_apply_entry(m0, section@, l@) == Result::<
                                OptionsModel,
                                ErrorKind,
                            >::Err(ErrorKind::ParseIntError));
                        }
                        Err(Error::new(ErrorKind::ParseIntError, "Bad keep alive"))
                    },
                }
            } else {
                proof {
                    assert(spec_apply_entry(m0, section@, l@) == Result::<
                        OptionsModel,
                        ErrorKind,
                    >::Err(ErrorKind::UnknownEntry));
                }
                Err(Error::new(ErrorKind::UnknownEntry, "Unknown default entry"))
            }
        } else if crate::ascii::bytes_is(section, "hosts") {
            opts.hosts.push(slice_to_vec(l));
            proof {
                assert(opts.hosts@.map_values(|h: Vec<u8>| h@) =~~= m0.hosts.push(l@));
                assert(opts.model() =~~= spec_apply_entry(m0, section@, l@)->Ok_0);
            }
            Ok(())
        } else if crate::ascii::bytes_is(section, "redirects") {
            match Self::arrow_pair(l) {
                None => {
                    proof {
                        assert(spec_apply_entry(m0, section@, l@) == Result::<
                            OptionsModel,
                            ErrorKind,
                        >::Err(ErrorKind::IOError));
                    }
                    Err(Error::new(ErrorKind::IOError, "Invalid settings entry"))
                },
                Some((k, v)) => {
                    opts.redirects.insert(k, v);
                    assert(opts.model() =~~= spec_apply_entry(m0, section@, l@)->Ok_0);
                    Ok(())
                },
            }
        } else if crate::ascii::bytes_is(section, "routes") {
            match Self::arrow_pair(l) {
                None => {
                    proof {
                        assert(spec_apply_entry(m0, section@, l@) == Result::<
                            OptionsModel,
                            ErrorKind,
                        >::Err(ErrorKind::IOError));
                    }
                    Err(Error::new(ErrorKind::IOError, "Invalid settings entry"))
                },
                Some((k, v)) => {
                    opts.routes.insert(k, v);
                    assert(opts.model() =~~= spec_apply_entry(m0, section@, l@)->Ok_0);
                    Ok(())
                },
            }
        } else if crate::ascii::bytes_is(section, "forward") {
            match Self::arrow_pair(l) {
                None => {
                    proof {
                        assert(spec_apply_entry(m0, section@, l@) == Result::<
                            OptionsModel,
                            ErrorKind,
                        >::Err(ErrorKind::IOError));
                    }
                    Err(Error::new(ErrorKind::IOError, "Invalid settings entry"))
                },
                Some((k, v)) => {
                    opts.forward.insert(k, v);
                    assert(opts.model() =~~= spec_apply_entry(m0, section@, l@)->Ok_0);
                    Ok(())
                },
            }
        } else {
            proof {
                assert(spec_apply_entry(m0, section@, l@) == Result::<
                    OptionsModel,
                    ErrorKind,
                >::Err(ErrorKind::UnknownSection));
            }
            Err(Error::new(ErrorKind::UnknownSection, "Unknown section"))
        }
    }

    /// Split a line at its first `->`, both sides trimmed.
    fn arrow_pair(l: &[u8]) -> (r: Option<(Vec<u8>, Vec<u8>)>)
        ensures
            r is Some <==> spec_kvp_arrow(l@) is Some,
            r is Some ==> ((r->0).0@, (r->0).1@) == spec_kvp_arrow(l@)->0,
    {
        match crate::config_file::find_arrow(l) {
            None => None,
            Some(a) => {
                let n = l.len();
                assert(a + 2 <= n);
                let k = trim(slice_subrange(l, 0, a));
                let v = trim(slice_subrange(l, a + 2, n));
                Some((k, v))
            },
        }
    }
}

impl Default for HttpOptions {
    /// The options before any config entry is applied.
    fn default() -> (r: HttpOptions)
        ensures
            r.wf(),
            r.model() == spec_default_model(),
    {
        let mut hosts: Vec<Vec<u8>> = Vec::new();
        let mut host: Vec<u8> = Vec::new();
        host.extend_from_slice("127.0.0.1:8080".as_bytes());
        assert(host@ =~= "127.0.0.1:8080".spec_bytes());
        hosts.push(host);
        let mut directory: Vec<u8> = Vec::new();
        directory.extend_from_slice("./src".as_bytes());
        assert(directory@ =~= "./src".spec_bytes());
        let mut index_file: Vec<u8> = Vec::new();
        index_file.extend_from_slice("index.html".as_bytes());
        assert(index_file@ =~= "index.html".spec_bytes());
        let r = HttpOptions {
            directory,
            index_file,
            client_limit: 128,
            keep_alive_secs: 10,
            hosts,
            redirects: Headers::new(),
            routes: Headers::new(),
            forward: Headers::new(),
        };
        proof {
            assert(r.model().hosts =~~= spec_default_model().hosts);
            assert(r.model() == spec_default_model());
        }
        r
    }
}

} // verus!
