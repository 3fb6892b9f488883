//! Storage configuration and its field-level validation.

use vstd::prelude::*;
use crate::host::{is_valid_host, valid_host};

verus! {

/// Raw storage configuration, as decoded from the configuration source.
pub struct Config {
    pub driver: String,
    pub username: String,
    pub password: String,
    pub host: String,
    pub port: u32,
    pub database: String,
}

/// A field-level validation violation, naming the offending field.
#[derive(Clone, Copy, PartialEq, Eq, Structural, Debug)]
pub enum Violation {
    InvalidDriver,
    InvalidHost,
    InvalidPort,
}

/// A recognized driver name.
pub open spec fn driver_ok(t: Seq<char>) -> bool {
    ||| t == "sqlite"@
    ||| t == "mysql"@
    ||| t == "postgres"@
}

/// A port in the valid range.
pub open spec fn port_ok(p: u32) -> bool {
    1 <= p <= 65535
}

impl Config {
    /// An empty configuration, to be filled from the configuration source.
    pub fn new() -> (c: Config)
        ensures
            c.driver@ == Seq::<char>::empty(),
            c.username@ == Seq::<char>::empty(),
            c.password@ == Seq::<char>::empty(),
            c.host@ == Seq::<char>::empty(),
            c.port == 0,
            c.database@ == Seq::<char>::empty(),
    {
        Config {
            driver: String::new(),
            username: String::new(),
            password: String::new(),
            host: String::new(),
            port: 0,
            database: String::new(),
        }
    }

    /// A configuration all of whose checked fields are well-formed.
    pub open spec fn valid(&self) -> bool {
        &&& driver_ok(self.driver@)
        &&& valid_host(self.host@)
        &&& port_ok(self.port)
    }

    /// The violations validation reports, in field order.
    pub open spec fn expected_violations(&self) -> Seq<Violation> {
        (if !driver_ok(self.driver@) {
            seq![Violation::InvalidDriver]
        } else {
            Seq::empty()
        }) + (if !valid_host(self.host@) {
            seq![Violation::InvalidHost]
        } else {
            Seq::empty()
        }) + (if !port_ok(self.port) {
            seq![Violation::InvalidPort]
        } else {
            Seq::empty()
        })
    }

    /// Validates the checked fields, returning all violations found.
    /// Succeeds exactly on valid configurations; never panics.
    pub fn validate(&self) -> (r: Result<(), Vec<Violation>>)
        ensures
            r is Ok <==> self.valid(),
            match r {
                Result::Ok(_) => self.valid(),
                Result::Err(v) => !self.valid() && v@ == self.expected_violations(),
            },
    {
        let driver_good = self.driver == "sqlite".to_owned() || self.driver == "mysql".to_owned()
            || self.driver == "postgres".to_owned();
        let host_good = is_valid_host(self.host.as_str());
        let port_good = 1 <= self.port && self.port <= 65535;
        let mut v: Vec<Violation> = Vec::new();
        if !driver_good {
            v.push(Violation::InvalidDriver);
        }
        if !host_good {
            v.push(Violation::InvalidHost);
        }
        if !port_good {
            v.push(Violation::InvalidPort);
        }
        if v.len() == 0 {
            proof {
                assert(v@ =~= self.expected_violations());
            }
            Result::Ok(())
        } else {
            proof {
                assert(v@ =~= self.expected_violations());
            }
            Result::Err(v)
        }
    }
}

/// An out-of-range port always produces a violation naming the port.
pub proof fn lemma_bad_port_is_reported(c: Config)
    requires
        !port_ok(c.port),
    ensures
        c.expected_violations().contains(Violation::InvalidPort),
{
    let vs = c.expected_violations();
    assert(vs[vs.len() - 1] == Violation::InvalidPort);
}

/// An unrecognized driver always produces a violation naming the driver.
pub proof fn lemma_bad_driver_is_reported(c: Config)
    requires
        !driver_ok(c.driver@),
    ensures
        c.expected_violations().contains(Violation::InvalidDriver),
{
    let vs = c.expected_violations();
    assert(vs[0] == Violation::InvalidDriver);
}

} // verus!
