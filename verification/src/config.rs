//! Storage configuration with explicit overrides.
//!
//! A `Config` holds the resolved credentials, bucket, region and optional
//! endpoint, plus a list of `KEY=VALUE` overrides applied after the base
//! values. A getter answers with the most recently set override for its
//! key, falling back to the base field. The configuration's values come
//! from the caller; this crate never reads the environment itself.

use vstd::prelude::*;

use crate::strings::{find_char, first_index_of, str_eq};

verus! {

/// The most recently set override for `key`, if any.
pub open spec fn override_for(
    overrides: Seq<(Seq<char>, Seq<char>)>,
    key: Seq<char>,
) -> Option<Seq<char>>
    decreases overrides.len(),
{
    if overrides.len() == 0 {
        None
    } else if overrides.last().0 == key {
        Some(overrides.last().1)
    } else {
        override_for(overrides.drop_last(), key)
    }
}

/// Resolved storage settings and their overrides.
#[derive(Debug, Clone)]
pub struct Config {
    pub access_key: String,
    pub secret_key: String,
    pub bucket_name: String,
    pub aws_region: String,
    pub s3_endpoint: Option<String>,
    pub overrides: Vec<(String, String)>,
}

impl Config {
    /// The override list as key/value character sequences, in the order
    /// the overrides were set.
    pub open spec fn overrides_view(&self) -> Seq<(Seq<char>, Seq<char>)> {
        self.overrides@.map_values(|p: (String, String)| (p.0@, p.1@))
    }

    /// A configuration from already-validated base values, with no
    /// overrides set.
    pub fn new(
        access_key: String,
        secret_key: String,
        bucket_name: String,
        aws_region: String,
        s3_endpoint: Option<String>,
    ) -> (r: Config)
        ensures
            r.access_key == access_key,
            r.secret_key == secret_key,
            r.bucket_name == bucket_name,
            r.aws_region == aws_region,
            r.s3_endpoint == s3_endpoint,
            r.overrides_view() == Seq::<(Seq<char>, Seq<char>)>::empty(),
    {
        let c = Config {
            access_key,
            secret_key,
            bucket_name,
            aws_region,
            s3_endpoint,
            overrides: Vec::new(),
        };
        proof {
            assert(c.overrides_view() =~= Seq::<(Seq<char>, Seq<char>)>::empty());
        }
        c
    }

    /// Records one override; it wins over the base value and over every
    /// override set earlier for the same key.
    pub fn set_override(&mut self, key: &str, value: &str)
        ensures
            final(self).overrides_view() == old(self).overrides_view().push((key@, value@)),
            final(self).access_key == old(self).access_key,
            final(self).secret_key == old(self).secret_key,
            final(self).bucket_name == old(self).bucket_name,
            final(self).aws_region == old(self).aws_region,
            final(self).s3_endpoint == old(self).s3_endpoint,
    {
        self.overrides.push((key.to_owned(), value.to_owned()));
        proof {
            assert(final(self).overrides_view() =~= old(self).overrides_view().push(
                (key@, value@),
            ));
        }
    }

    /// The most recently set override for `key`, if any.
    fn get_override(&self, key: &str) -> (r: Option<&str>)
        ensures
            match r {
                Some(v) => override_for(self.overrides_view(), key@) == Some(v@),
                None => override_for(self.overrides_view(), key@) is None,
            },
    {
        let ghost ovs = self.overrides_view();
        let mut i: usize = self.overrides.len();
        proof {
            assert(ovs.subrange(0, i as int) =~= ovs);
        }
        while i > 0
            invariant
                i <= self.overrides@.len(),
                ovs == self.overrides_view(),
                override_for(ovs, key@) == override_for(ovs.subrange(0, i as int), key@),
            decreases i,
        {
            let ghost sub = ovs.subrange(0, i as int);
            if str_eq(self.overrides[i - 1].0.as_str(), key) {
                proof {
                    assert(sub.last() == ovs[i - 1]);
                }
                return Some(self.overrides[i - 1].1.as_str());
            }
            proof {
                assert(sub.last() == ovs[i - 1]);
                assert(sub.drop_last() =~= ovs.subrange(0, i - 1));
            }
            i = i - 1;
        }
        proof {
            assert(ovs.subrange(0, 0) =~= Seq::<(Seq<char>, Seq<char>)>::empty());
        }
        None
    }

    /// The access key: its override when one was set, else the base value.
    pub fn get_access_key(&self) -> (r: &str)
        ensures
            r@ == match override_for(self.overrides_view(), "ACCESS_KEY"@) {
                Some(v) => v,
                None => self.access_key@,
            },
    {
        match self.get_override("ACCESS_KEY") {
            Some(v) => v,
            None => self.access_key.as_str(),
        }
    }

    /// The secret key: its override when one was set, else the base value.
    pub fn get_secret_key(&self) -> (r: &str)
        ensures
            r@ == match override_for(self.overrides_view(), "SECRET_KEY"@) {
                Some(v) => v,
                None => self.secret_key@,
            },
    {
        match self.get_override("SECRET_KEY") {
            Some(v) => v,
            None => self.secret_key.as_str(),
        }
    }

    /// The bucket name: its override when one was set, else the base
    /// value.
    pub fn get_bucket_name(&self) -> (r: &str)
        ensures
            r@ == match override_for(self.overrides_view(), "BUCKET_NAME"@) {
                Some(v) => v,
                None => self.bucket_name@,
            },
    {
        match self.get_override("BUCKET_NAME") {
            Some(v) => v,
            None => self.bucket_name.as_str(),
        }
    }

    /// The region: its override when one was set, else the base value.
    pub fn get_aws_region(&self) -> (r: &str)
        ensures
            r@ == match override_for(self.overrides_view(), "AWS_REGION"@) {
                Some(v) => v,
                None => self.aws_region@,
            },
    {
        match self.get_override("AWS_REGION") {
            Some(v) => v,
            None => self.aws_region.as_str(),
        }
    }

    /// The custom endpoint: its override when one was set, else the base
    /// value, which may itself be absent.
    pub fn get_s3_endpoint(&self) -> (r: Option<&str>)
        ensures
            match override_for(self.overrides_view(), "S3_ENDPOINT"@) {
                Some(v) => r matches Some(x) && x@ == v,
                None => match self.s3_endpoint {
                    Some(e) => r matches Some(x) && x@ == e@,
                    None => r is None,
                },
            },
    {
        match self.get_override("S3_ENDPOINT") {
            Some(v) => Some(v),
            None => match &self.s3_endpoint {
                Some(e) => Some(e.as_str()),
                None => None,
            },
        }
    }
}

/// Splits one `KEY=VALUE` argument at its first `=`: the key is what comes
/// before, the value everything after. An argument without `=` is
/// rejected, and only such an argument is.
pub fn parse_config(s: &str) -> (r: Result<(String, String), String>)
    ensures
        match r {
            Ok(kv) => {
                &&& first_index_of(s@, '=') < s@.len()
                &&& kv.0@ == s@.subrange(0, first_index_of(s@, '='))
                &&& kv.1@ == s@.subrange(first_index_of(s@, '=') + 1, s@.len() as int)
            },
            Err(m) => first_index_of(s@, '=') == s@.len() && m@
                == "Config must be in format KEY=VALUE"@,
        },
{
    match find_char(s, '=') {
        Some(h) => {
            let n = s.unicode_len();
            let key = s.substring_char(0, h).to_owned();
            let value = s.substring_char(h + 1, n).to_owned();
            Ok((key, value))
        },
        None => Err(String::from_str("Config must be in format KEY=VALUE")),
    }
}

} // verus!
