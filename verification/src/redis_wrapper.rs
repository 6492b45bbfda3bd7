//! Settings of a Redis client: the upstream cluster, the credentials and
//! the timeout of a call.

use crate::cluster_wrapper::Cluster;
use crate::msg_win_openai::text_view;
use std::time::Duration;
use vstd::prelude::*;

verus! {

/// What a Redis client is set up with.
pub struct RedisSettings {
    pub upstream: Seq<char>,
    pub username: Option<Seq<char>>,
    pub password: Option<Seq<char>>,
    pub timeout: Duration,
}

/// An owned copy of a text that may be absent.
fn owned(text: Option<&str>) -> (r: Option<String>)
    ensures
        text_view(r) == (match text {
            Some(t) => Some(t@),
            None => None,
        }),
{
    match text {
        Some(t) => Some(t.to_owned()),
        None => None,
    }
}

/// A copy of a text that may be absent.
fn copied(text: &Option<String>) -> (r: Option<String>)
    ensures
        text_view(r) == text_view(*text),
{
    match text {
        Some(t) => Some(t.clone()),
        None => None,
    }
}

/// Builds a `RedisClient` step by step.
pub struct RedisClientBuilder {
    upstream: String,
    username: Option<String>,
    password: Option<String>,
    timeout: Duration,
}

impl View for RedisClientBuilder {
    type V = RedisSettings;

    closed spec fn view(&self) -> RedisSettings {
        RedisSettings {
            upstream: self.upstream@,
            username: text_view(self.username),
            password: text_view(self.password),
            timeout: self.timeout,
        }
    }
}

impl RedisClientBuilder {
    /// A builder for the upstream `cluster`, under the name that the
    /// cluster gives itself, without credentials.
    pub fn new<C: Cluster>(cluster: &C, timeout: Duration) -> (r: Self)
        ensures
            r@ == (RedisSettings { upstream: r@.upstream, username: None, password: None, timeout }),
    {
        Self::with_upstream(cluster.cluster_name(), timeout)
    }

    /// A builder for the upstream named `upstream`, without credentials.
    pub fn with_upstream(upstream: String, timeout: Duration) -> (r: Self)
        ensures
            r@ == (RedisSettings { upstream: upstream@, username: None, password: None, timeout }),
    {
        RedisClientBuilder { upstream, username: None, password: None, timeout }
    }

    /// The builder with the user name set, or cleared by `None`.
    pub fn username(self, username: Option<&str>) -> (r: Self)
        ensures
            r@ == (RedisSettings {
                username: match username {
                    Some(t) => Some(t@),
                    None => None,
                },
                ..self@
            }),
    {
        let mut r = self;
        r.username = owned(username);
        r
    }

    /// The builder with the password set, or cleared by `None`.
    pub fn password(self, password: Option<&str>) -> (r: Self)
        ensures
            r@ == (RedisSettings {
                password: match password {
                    Some(t) => Some(t@),
                    None => None,
                },
                ..self@
            }),
    {
        let mut r = self;
        r.password = owned(password);
        r
    }

    /// The client with the settings of the builder.
    pub fn build(self) -> (r: RedisClient)
        ensures
            r@ == self@,
    {
        RedisClient {
            upstream: self.upstream,
            username: self.username,
            password: self.password,
            timeout: self.timeout,
        }
    }
}

/// The settings of a `RedisClient`, changed in place.
pub struct RedisClientConfig {
    upstream: String,
    username: Option<String>,
    password: Option<String>,
    timeout: Duration,
}

impl View for RedisClientConfig {
    type V = RedisSettings;

    closed spec fn view(&self) -> RedisSettings {
        RedisSettings {
            upstream: self.upstream@,
            username: text_view(self.username),
            password: text_view(self.password),
            timeout: self.timeout,
        }
    }
}

impl RedisClientConfig {
    /// Settings for the upstream `cluster`, under the name that the cluster
    /// gives itself, without credentials.
    pub fn new<C: Cluster>(cluster: &C, timeout: Duration) -> (r: Self)
        ensures
            r@ == (RedisSettings { upstream: r@.upstream, username: None, password: None, timeout }),
    {
        Self::with_upstream(cluster.cluster_name(), timeout)
    }

    /// Settings for the upstream named `upstream`, without credentials.
    pub fn with_upstream(upstream: String, timeout: Duration) -> (r: Self)
        ensures
            r@ == (RedisSettings { upstream: upstream@, username: None, password: None, timeout }),
    {
        RedisClientConfig { upstream, username: None, password: None, timeout }
    }

    /// Sets the user name, or clears it by `None`.
    pub fn username(&mut self, username: Option<&str>)
        ensures
            final(self)@ == (RedisSettings {
                username: match username {
                    Some(t) => Some(t@),
                    None => None,
                },
                ..old(self)@
            }),
    {
        self.username = owned(username);
    }

    /// Sets the password, or clears it by `None`.
    pub fn password(&mut self, password: Option<&str>)
        ensures
            final(self)@ == (RedisSettings {
                password: match password {
                    Some(t) => Some(t@),
                    None => None,
                },
                ..old(self)@
            }),
    {
        self.password = owned(password);
    }
}

/// A Redis client: the settings that its calls are made with.
#[derive(Debug)]
pub struct RedisClient {
    upstream: String,
    username: Option<String>,
    password: Option<String>,
    timeout: Duration,
}

impl View for RedisClient {
    type V = RedisSettings;

    closed spec fn view(&self) -> RedisSettings {
        RedisSettings {
            upstream: self.upstream@,
            username: text_view(self.username),
            password: text_view(self.password),
            timeout: self.timeout,
        }
    }
}

impl Clone for RedisClient {
    fn clone(&self) -> (r: Self)
        ensures
            r@ == self@,
    {
        RedisClient {
            upstream: self.upstream.clone(),
            username: copied(&self.username),
            password: copied(&self.password),
            timeout: self.timeout,
        }
    }
}

impl RedisClient {
    /// The client with the settings of `config`.
    pub fn new(config: &RedisClientConfig) -> (r: Self)
        ensures
            r@ == config@,
    {
        RedisClient {
            upstream: config.upstream.clone(),
            username: copied(&config.username),
            password: copied(&config.password),
            timeout: config.timeout,
        }
    }

    /// The name of the upstream cluster.
    pub fn upstream(&self) -> (r: &str)
        ensures
            r@ == self@.upstream,
    {
        self.upstream.as_str()
    }

    /// The user name to log in with, as bytes.
    pub fn username(&self) -> (r: Option<&[u8]>)
        ensures
            r is Some == self@.username is Some,
            r matches Some(b) ==> b@ == vstd::utf8::encode_utf8(self@.username->0),
    {
        match &self.username {
            Some(u) => Some(u.as_str().as_bytes()),
            None => None,
        }
    }

    /// The password to log in with, as bytes.
    pub fn password(&self) -> (r: Option<&[u8]>)
        ensures
            r is Some == self@.password is Some,
            r matches Some(b) ==> b@ == vstd::utf8::encode_utf8(self@.password->0),
    {
        match &self.password {
            Some(p) => Some(p.as_str().as_bytes()),
            None => None,
        }
    }

    /// The time allowed for a call.
    pub fn timeout(&self) -> (r: Duration)
        ensures
            r == self@.timeout,
    {
        self.timeout
    }
}

} // verus!
