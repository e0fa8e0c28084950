//! The kernel command line (`/proc/cmdline`) as a map of parameters.
use vstd::prelude::*;
use crate::config;
use crate::strmap::StrMap;
use crate::text;

verus! {

/// What one parameter does to the map: `key=value` (split at the first `=`)
/// sets `key`, a bare `flag` sets `flag` to the empty string; a key that is in
/// `mask` is left out.
pub open spec fn cmdline_step(
    m: Map<Seq<char>, Seq<char>>,
    mask: Seq<Seq<char>>,
    param: Seq<char>,
) -> Map<Seq<char>, Seq<char>> {
    match text::find_char(param, '=') {
        Some(p) => {
            let k = param.take(p);
            if mask.contains(k) {
                m
            } else {
                m.insert(k, param.skip(p + 1))
            }
        },
        None => if mask.contains(param) {
            m
        } else {
            m.insert(param, seq![])
        },
    }
}

/// The map that a list of parameters builds, a later parameter overriding an earlier one.
pub open spec fn cmdline_params(params: Seq<Seq<char>>, mask: Seq<Seq<char>>) -> Map<
    Seq<char>,
    Seq<char>,
>
    decreases params.len(),
{
    if params.len() == 0 {
        Map::empty()
    } else {
        cmdline_step(cmdline_params(params.drop_last(), mask), mask, params.last())
    }
}

/// The parameters of a kernel command line.
pub open spec fn parse_cmdline(cmdline: Seq<char>, mask: Seq<Seq<char>>) -> Map<Seq<char>, Seq<char>> {
    cmdline_params(text::words(cmdline), mask)
}

/// Whether `mask` holds a string equal to `v[lo..hi]`.
fn mask_contains(mask: &[String], v: &Vec<char>, lo: usize, hi: usize) -> (r: bool)
    requires
        lo <= hi <= v@.len(),
    ensures
        r == config::str_views(mask@).contains(v@.subrange(lo as int, hi as int)),
{
    let key = text::string_from_range(v, lo, hi);
    let ghost mv = config::str_views(mask@);
    let mut i: usize = 0;
    while i < mask.len()
        invariant
            i <= mask@.len(),
            mv == config::str_views(mask@),
            key@ == v@.subrange(lo as int, hi as int),
            forall|j: int| 0 <= j < i ==> mv[j] != key@,
        decreases mask@.len() - i,
    {
        if mask[i] == key {
            proof {
                assert(mv[i as int] == key@);
            }
            return true;
        }
        i = i + 1;
    }
    false
}

pub struct CmdLine {
    params: StrMap,
}

impl View for CmdLine {
    type V = Map<Seq<char>, Seq<char>>;

    closed spec fn view(&self) -> Map<Seq<char>, Seq<char>> {
        self.params@
    }
}

impl CmdLine {
    /// The parameters of the command line `cmdline`.
    pub fn new(cmdline: &str) -> (r: Self)
        ensures
            r@ == parse_cmdline(cmdline@, seq![]),
    {
        let empty: Vec<String> = Vec::new();
        let r = Self::new_with_mask(cmdline, empty.as_slice());
        proof {
            assert(config::str_views(empty@) =~= Seq::<Seq<char>>::empty());
        }
        r
    }

    /// The parameters of the command line `cmdline`, leaving out those whose
    /// key is in `mask`.
    pub fn new_with_mask(cmdline: &str, mask: &[String]) -> (r: Self)
        ensures
            r@ == parse_cmdline(cmdline@, config::str_views(mask@)),
    {
        let v = text::chars_of(cmdline);
        let n = v.len();
        let ws = text::split_whitespace_in(&v, 0, n);
        proof {
            assert(v@.subrange(0, n as int) =~= v@);
        }
        let ghost wv = text::range_views(v@, ws@);
        let ghost mv = config::str_views(mask@);
        let mut params = StrMap::new();
        let mut i: usize = 0;
        while i < ws.len()
            invariant
                v@ == cmdline@,
                n == v@.len(),
                wv == text::range_views(v@, ws@),
                wv == text::words(cmdline@),
                mv == config::str_views(mask@),
                text::ranges_within(ws@, 0, n as int),
                i <= ws@.len(),
                params@ == cmdline_params(wv.take(i as int), mv),
            decreases ws@.len() - i,
        {
            let (a, b) = ws[i];
            let ghost param = v@.subrange(a as int, b as int);
            proof {
                assert(wv.take(i + 1).drop_last() =~= wv.take(i as int));
                assert(wv.take(i + 1).last() == param);
            }
            match text::find_char_in(&v, a, b, '=') {
                Some(p) => {
                    proof {
                        assert(param.take(p - a) =~= v@.subrange(a as int, p as int));
                        assert(param.skip(p - a + 1) =~= v@.subrange(p + 1, b as int));
                    }
                    if !mask_contains(mask, &v, a, p) {
                        let key = text::string_from_range(&v, a, p);
                        let value = text::string_from_range(&v, p + 1, b);
                        params.insert(key, value);
                    }
                },
                None => {
                    if !mask_contains(mask, &v, a, b) {
                        let key = text::string_from_range(&v, a, b);
                        params.insert(key, String::new());
                    }
                },
            }
            i = i + 1;
        }
        proof {
            assert(wv.take(ws@.len() as int) =~= wv);
        }
        CmdLine { params }
    }

    fn param(&self, key: &str) -> (r: Option<&str>)
        ensures
            match r {
                Some(v) => self@.contains_key(key@) && self@[key@] == v@,
                None => !self@.contains_key(key@),
            },
    {
        let k = String::from_str(key);
        match self.params.get(&k) {
            Some(v) => Some(v.as_str()),
            None => None,
        }
    }

    /// The `root=` parameter.
    pub fn get_root_device(&self) -> (r: Option<&str>)
        ensures
            match r {
                Some(v) => self@.contains_key("root"@) && self@["root"@] == v@,
                None => !self@.contains_key("root"@),
            },
    {
        self.param("root")
    }

    /// The `rootfstype=` parameter.
    pub fn get_root_fstype(&self) -> (r: Option<&str>)
        ensures
            match r {
                Some(v) => self@.contains_key("rootfstype"@) && self@["rootfstype"@] == v@,
                None => !self@.contains_key("rootfstype"@),
            },
    {
        self.param("rootfstype")
    }

    /// The `rootflags=` parameter.
    pub fn get_root_options(&self) -> (r: Option<&str>)
        ensures
            match r {
                Some(v) => self@.contains_key("rootflags"@) && self@["rootflags"@] == v@,
                None => !self@.contains_key("rootflags"@),
            },
    {
        self.param("rootflags")
    }
}

/// No parameter whose key is masked is ever kept.
pub proof fn lemma_masked_keys_absent(params: Seq<Seq<char>>, mask: Seq<Seq<char>>, k: Seq<char>)
    requires
        mask.contains(k),
    ensures
        !cmdline_params(params, mask).contains_key(k),
    decreases params.len(),
{
    if params.len() > 0 {
        lemma_masked_keys_absent(params.drop_last(), mask, k);
    }
}

/// A later `key=value` overrides any earlier value of an unmasked `key`.
pub proof fn lemma_last_parameter_wins(
    params: Seq<Seq<char>>,
    mask: Seq<Seq<char>>,
    key: Seq<char>,
    value: Seq<char>,
)
    requires
        text::find_char(key, '=') is None,
        !mask.contains(key),
    ensures
        cmdline_params(params.push(key + seq!['='] + value), mask).contains_key(key),
        cmdline_params(params.push(key + seq!['='] + value), mask)[key] == value,
{
    let param = key + seq!['='] + value;
    let ps = params.push(param);
    assert(ps.drop_last() =~= params);
    text::lemma_find_char(key, '=');
    assert(param[key.len() as int] == '=');
    assert forall|j: int| 0 <= j < key.len() implies param[j] != '=' by {
        assert(param[j] == key[j]);
    }
    text::lemma_find_char_unique(param, '=', key.len() as int);
    assert(param.take(key.len() as int) =~= key);
    assert(param.skip(key.len() as int + 1) =~= value);
}

} // verus!
