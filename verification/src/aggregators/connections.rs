//! The connection statistics aggregator: counts of attempts,
//! authentications and failures, with per-host, per-database, per-user,
//! per-application and per-time-bucket maps.

use vstd::prelude::*;

use crate::bytes_util::{contains_seq, is_prefix_of, sb, starts_with_bytes};
use crate::countmap::{bump_spec, merge_spec, sat_add, CountMap};
use crate::error::Error;
use crate::format::{extract_after_needle_spec, message_spec};
use crate::numbers::push_dec;
use crate::render::{push_count_line, push_lit};
use crate::search::memmem_contains;
use crate::severity::Severity;
use crate::timeparse::{floor_nanos, LogInstant};
use crate::Format;

verus! {

/// The record reports an authentication failure: a FATAL record naming a
/// failed password authentication or a login ban.
pub open spec fn conn_is_failure(rec: Seq<u8>, sev: Severity) -> bool {
    sev == Severity::Fatal && (contains_seq(rec, sb("password authentication failed"))
        || contains_seq(rec, sb("is not permitted to log in")))
}

/// The extracted value for a key, with `unknown` substituted when absent.
pub open spec fn value_or_unknown(rec: Seq<u8>, needle: Seq<u8>) -> Seq<u8> {
    match extract_after_needle_spec(rec, needle) {
        Some(v) => v,
        None => sb("unknown"),
    }
}

/// The record's message opens with `connection received:`.
pub open spec fn conn_received(msg: Seq<u8>) -> bool {
    is_prefix_of(msg, sb("connection received:"))
}

/// The record's message opens with `connection authorized:`.
pub open spec fn conn_authorized(msg: Seq<u8>) -> bool {
    is_prefix_of(msg, sb("connection authorized:"))
}

/// The bucket's wall-clock second: the instant floored to the interval,
/// shifted to the record's display offset.
pub open spec fn conn_bucket_wall_secs(t: LogInstant, interval_ns: u64) -> int {
    floor_nanos(t.nanos as int, interval_ns as int) / 1000000000 + t.offset_secs
}

/// The instant can be bucketed and its bucket rendered.
pub open spec fn conn_bucketable(t: LogInstant, interval_ns: u64) -> bool {
    0 <= t.nanos && 0 <= conn_bucket_wall_secs(t, interval_ns) <= 253402300799
}

/// One printed total: its label, the count, a newline.
pub open spec fn total_line(label: Seq<u8>, n: u64) -> Seq<u8> {
    label + crate::numbers::dec_digits(n as nat) + seq![10u8]
}

/// `b` is the count lines of the map's entries in print order.
pub open spec fn rendered_map(entries: Seq<(Seq<u8>, u64)>, b: Seq<u8>) -> bool {
    exists|sorted: Seq<(Seq<u8>, u64)>|
        #![trigger crate::countmap::is_print_sorted(entries, sorted)]
        crate::countmap::is_print_sorted(entries, sorted) && b == crate::render::count_lines_of(
            sorted,
        )
}

/// The connection statistics aggregator.
pub struct ConnectionsAggregator {
    pub total_connection_attempts: u64,
    pub total_authenticated: u64,
    pub total_authenticated_ssl: u64,
    pub connection_failures: u64,
    pub connections_by_host: CountMap,
    pub connections_by_database: CountMap,
    pub connections_by_user: CountMap,
    pub connections_by_appname: CountMap,
    pub connection_attempts_by_time_bucket: CountMap,
    pub bucket_interval: u64,
}

impl ConnectionsAggregator {
    pub open spec fn wf(&self) -> bool {
        &&& self.connections_by_host.wf()
        &&& self.connections_by_database.wf()
        &&& self.connections_by_user.wf()
        &&& self.connections_by_appname.wf()
        &&& self.connection_attempts_by_time_bucket.wf()
        &&& self.bucket_interval >= 1
    }

    /// A fresh aggregator with the default ten-minute bucket interval.
    pub fn new() -> (r: ConnectionsAggregator)
        ensures
            r.wf(),
            r.total_connection_attempts == 0,
            r.total_authenticated == 0,
            r.total_authenticated_ssl == 0,
            r.connection_failures == 0,
            r.connections_by_host.view_entries() == Seq::<(Seq<u8>, u64)>::empty(),
            r.connections_by_database.view_entries() == Seq::<(Seq<u8>, u64)>::empty(),
            r.connections_by_user.view_entries() == Seq::<(Seq<u8>, u64)>::empty(),
            r.connections_by_appname.view_entries() == Seq::<(Seq<u8>, u64)>::empty(),
            r.connection_attempts_by_time_bucket.view_entries() == Seq::<(Seq<u8>, u64)>::empty(),
            r.bucket_interval == 600000000000u64,
    {
        ConnectionsAggregator {
            total_connection_attempts: 0,
            total_authenticated: 0,
            total_authenticated_ssl: 0,
            connection_failures: 0,
            connections_by_host: CountMap::new(),
            connections_by_database: CountMap::new(),
            connections_by_user: CountMap::new(),
            connections_by_appname: CountMap::new(),
            connection_attempts_by_time_bucket: CountMap::new(),
            bucket_interval: 600000000000,
        }
    }

    /// A shard of the same interval with nothing counted.
    pub fn clone_empty(&self) -> (r: ConnectionsAggregator)
        requires
            self.wf(),
        ensures
            r.wf(),
            r.bucket_interval == self.bucket_interval,
            r.total_connection_attempts == 0,
            r.total_authenticated == 0,
            r.total_authenticated_ssl == 0,
            r.connection_failures == 0,
            r.connections_by_host.view_entries() == Seq::<(Seq<u8>, u64)>::empty(),
            r.connections_by_database.view_entries() == Seq::<(Seq<u8>, u64)>::empty(),
            r.connections_by_user.view_entries() == Seq::<(Seq<u8>, u64)>::empty(),
            r.connections_by_appname.view_entries() == Seq::<(Seq<u8>, u64)>::empty(),
            r.connection_attempts_by_time_bucket.view_entries() == Seq::<(Seq<u8>, u64)>::empty(),
    {
        ConnectionsAggregator {
            total_connection_attempts: 0,
            total_authenticated: 0,
            total_authenticated_ssl: 0,
            connection_failures: 0,
            connections_by_host: CountMap::new(),
            connections_by_database: CountMap::new(),
            connections_by_user: CountMap::new(),
            connections_by_appname: CountMap::new(),
            connection_attempts_by_time_bucket: CountMap::new(),
            bucket_interval: self.bucket_interval,
        }
    }

    /// Feed one surviving record. A FATAL failure bumps the failure count;
    /// a LOG `connection received:` message bumps attempts, its host and
    /// its time bucket; a LOG `connection authorized:` message bumps
    /// authentications (SSL separately) and its user, database and
    /// application maps; everything else is ignored. A received connection
    /// whose instant cannot be bucketed is a reported error, counted not at
    /// all.
    pub fn update(
        &mut self,
        record: &[u8],
        fmt: &Format,
        severity: &Severity,
        log_time: LogInstant,
    ) -> (r: Result<(), Error>)
        requires
            old(self).wf(),
        ensures
            final(self).wf(),
            final(self).bucket_interval == old(self).bucket_interval,
            conn_is_failure(record@, *severity) ==> r is Ok
                && final(self).connection_failures == sat_add(old(self).connection_failures, 1)
                && final(self).total_connection_attempts == old(self).total_connection_attempts
                && final(self).total_authenticated == old(self).total_authenticated
                && final(self).total_authenticated_ssl == old(self).total_authenticated_ssl
                && final(self).connections_by_host.view_entries()
                    == old(self).connections_by_host.view_entries()
                && final(self).connections_by_database.view_entries()
                    == old(self).connections_by_database.view_entries()
                && final(self).connections_by_user.view_entries()
                    == old(self).connections_by_user.view_entries()
                && final(self).connections_by_appname.view_entries()
                    == old(self).connections_by_appname.view_entries()
                && final(self).connection_attempts_by_time_bucket.view_entries()
                    == old(self).connection_attempts_by_time_bucket.view_entries(),
            !conn_is_failure(record@, *severity) && *severity != Severity::Log ==> r is Ok
                && *final(self) == *old(self),
            !conn_is_failure(record@, *severity) && *severity == Severity::Log && message_spec(
                *fmt,
                record@,
            ) is None ==> r is Ok && *final(self) == *old(self),
            !conn_is_failure(record@, *severity) && *severity == Severity::Log && message_spec(
                *fmt,
                record@,
            ) is Some ==> {
                let msg = message_spec(*fmt, record@).unwrap();
                &&& (r is Err <==> conn_received(msg) && !conn_bucketable(
                    log_time,
                    old(self).bucket_interval,
                ))
                &&& (r is Ok ==> {
                    &&& final(self).connection_failures == old(self).connection_failures
                    &&& final(self).total_connection_attempts == if conn_received(msg) {
                        sat_add(old(self).total_connection_attempts, 1)
                    } else {
                        old(self).total_connection_attempts
                    }
                    &&& final(self).total_authenticated == if conn_authorized(msg) {
                        sat_add(old(self).total_authenticated, 1)
                    } else {
                        old(self).total_authenticated
                    }
                    &&& final(self).total_authenticated_ssl == if conn_authorized(msg)
                        && contains_seq(msg, sb("SSL enabled")) {
                        sat_add(old(self).total_authenticated_ssl, 1)
                    } else {
                        old(self).total_authenticated_ssl
                    }
                    &&& final(self).connections_by_host.view_entries() == if conn_received(
                        msg,
                    ) {
                        bump_spec(
                            old(self).connections_by_host.view_entries(),
                            value_or_unknown(record@, sb("host=")),
                            1,
                        )
                    } else {
                        old(self).connections_by_host.view_entries()
                    }
                    &&& (conn_received(msg)
                        ==> final(self).connection_attempts_by_time_bucket.view_entries()
                        == bump_spec(
                        old(self).connection_attempts_by_time_bucket.view_entries(),
                        crate::render::ts_render(
                            conn_bucket_wall_secs(log_time, old(self).bucket_interval),
                            log_time.offset_secs as int,
                        ),
                        1,
                    ))
                    &&& (!conn_received(msg)
                        ==> final(self).connection_attempts_by_time_bucket.view_entries()
                        == old(self).connection_attempts_by_time_bucket.view_entries())
                    &&& final(self).connections_by_user.view_entries() == if conn_authorized(
                        msg,
                    ) {
                        bump_spec(
                            old(self).connections_by_user.view_entries(),
                            value_or_unknown(record@, sb("user=")),
                            1,
                        )
                    } else {
                        old(self).connections_by_user.view_entries()
                    }
                    &&& final(self).connections_by_database.view_entries() == if conn_authorized(
                        msg,
                    ) {
                        bump_spec(
                            old(self).connections_by_database.view_entries(),
                            value_or_unknown(record@, sb("database=")),
                            1,
                        )
                    } else {
                        old(self).connections_by_database.view_entries()
                    }
                    &&& final(self).connections_by_appname.view_entries() == if conn_authorized(
                        msg,
                    ) {
                        bump_spec(
                            old(self).connections_by_appname.view_entries(),
                            value_or_unknown(record@, sb("application_name=")),
                            1,
                        )
                    } else {
                        old(self).connections_by_appname.view_entries()
                    }
                })
            },
    {
        if *severity == Severity::Fatal && (memmem_contains(
            record,
            "password authentication failed".as_bytes(),
        ) || memmem_contains(record, "is not permitted to log in".as_bytes())) {
            let f = self.connection_failures;
            self.connection_failures = if f == u64::MAX {
                u64::MAX
            } else {
                f + 1
            };
            return Ok(());
        }
        if *severity != Severity::Log {
            return Ok(());
        }
        let msg = match fmt.message_from_bytes(record) {
            None => {
                return Ok(());
            },
            Some(m) => m,
        };
        if starts_with_bytes(msg.as_slice(), "connection received:".as_bytes()) {
            if log_time.nanos < 0 {
                return Err(Error::TimestampBeforeEpoch);
            }
            let floored = crate::timeparse::round_floor(
                log_time.nanos,
                self.bucket_interval as i128,
            );
            let bucket_secs128 = floored / 1000000000;
            let wall_secs = bucket_secs128 + log_time.offset_secs as i128;
            if wall_secs > 253402300799i128 || wall_secs < 0 {
                return Err(Error::TimestampOutOfRange);
            }
            let a = self.total_connection_attempts;
            self.total_connection_attempts = if a == u64::MAX {
                u64::MAX
            } else {
                a + 1
            };
            let host = match fmt.host_from_bytes(record) {
                Some(h) => h,
                None => crate::bytes_util::copy_bytes("unknown".as_bytes()),
            };
            self.connections_by_host.bump(host.as_slice(), 1);
            let key = crate::render::format_instant(wall_secs as i64, log_time.offset_secs);
            self.connection_attempts_by_time_bucket.bump(key.as_slice(), 1);
        }
        if starts_with_bytes(msg.as_slice(), "connection authorized:".as_bytes()) {
            let a = self.total_authenticated;
            self.total_authenticated = if a == u64::MAX {
                u64::MAX
            } else {
                a + 1
            };
            if memmem_contains(msg.as_slice(), "SSL enabled".as_bytes()) {
                let s = self.total_authenticated_ssl;
                self.total_authenticated_ssl = if s == u64::MAX {
                    u64::MAX
                } else {
                    s + 1
                };
            }
            let user = match fmt.user_from_bytes(record) {
                Some(v) => v,
                None => crate::bytes_util::copy_bytes("unknown".as_bytes()),
            };
            self.connections_by_user.bump(user.as_slice(), 1);
            let db = match fmt.db_from_bytes(record) {
                Some(v) => v,
                None => crate::bytes_util::copy_bytes("unknown".as_bytes()),
            };
            self.connections_by_database.bump(db.as_slice(), 1);
            let app = match fmt.appname_from_bytes(record) {
                Some(v) => v,
                None => crate::bytes_util::copy_bytes("unknown".as_bytes()),
            };
            self.connections_by_appname.bump(app.as_slice(), 1);
        }
        Ok(())
    }

    /// Fold another shard's counts into this one: scalars add (saturating),
    /// maps merge key-wise.
    pub fn merge(&mut self, other: &ConnectionsAggregator)
        requires
            old(self).wf(),
        ensures
            final(self).wf(),
            final(self).bucket_interval == old(self).bucket_interval,
            final(self).total_connection_attempts == sat_add(
                old(self).total_connection_attempts,
                other.total_connection_attempts,
            ),
            final(self).total_authenticated == sat_add(
                old(self).total_authenticated,
                other.total_authenticated,
            ),
            final(self).total_authenticated_ssl == sat_add(
                old(self).total_authenticated_ssl,
                other.total_authenticated_ssl,
            ),
            final(self).connection_failures == sat_add(
                old(self).connection_failures,
                other.connection_failures,
            ),
            final(self).connections_by_host.view_entries() == merge_spec(
                old(self).connections_by_host.view_entries(),
                other.connections_by_host.view_entries(),
            ),
            final(self).connections_by_database.view_entries() == merge_spec(
                old(self).connections_by_database.view_entries(),
                other.connections_by_database.view_entries(),
            ),
            final(self).connections_by_user.view_entries() == merge_spec(
                old(self).connections_by_user.view_entries(),
                other.connections_by_user.view_entries(),
            ),
            final(self).connections_by_appname.view_entries() == merge_spec(
                old(self).connections_by_appname.view_entries(),
                other.connections_by_appname.view_entries(),
            ),
            final(self).connection_attempts_by_time_bucket.view_entries() == merge_spec(
                old(self).connection_attempts_by_time_bucket.view_entries(),
                other.connection_attempts_by_time_bucket.view_entries(),
            ),
    {
        let a = self.total_connection_attempts;
        let b = other.total_connection_attempts;
        self.total_connection_attempts = if b > u64::MAX - a {
            u64::MAX
        } else {
            a + b
        };
        let a = self.total_authenticated;
        let b = other.total_authenticated;
        self.total_authenticated = if b > u64::MAX - a {
            u64::MAX
        } else {
            a + b
        };
        let a = self.total_authenticated_ssl;
        let b = other.total_authenticated_ssl;
        self.total_authenticated_ssl = if b > u64::MAX - a {
            u64::MAX
        } else {
            a + b
        };
        let a = self.connection_failures;
        let b = other.connection_failures;
        self.connection_failures = if b > u64::MAX - a {
            u64::MAX
        } else {
            a + b
        };
        self.connections_by_host.merge(&other.connections_by_host);
        self.connections_by_database.merge(&other.connections_by_database);
        self.connections_by_user.merge(&other.connections_by_user);
        self.connections_by_appname.merge(&other.connections_by_appname);
        self.connection_attempts_by_time_bucket.merge(&other.connection_attempts_by_time_bucket);
    }

    /// Render the four totals, then every map under its heading, each map
    /// sorted by descending count with ties broken by ascending key.
    pub fn render(&self) -> (out: Vec<u8>)
        ensures
            exists|bh: Seq<u8>, bd: Seq<u8>, bu: Seq<u8>, ba: Seq<u8>, bt: Seq<u8>|
                #![trigger rendered_map(self.connections_by_host.view_entries(), bh),
                    rendered_map(self.connections_by_database.view_entries(), bd),
                    rendered_map(self.connections_by_user.view_entries(), bu),
                    rendered_map(self.connections_by_appname.view_entries(), ba),
                    rendered_map(self.connection_attempts_by_time_bucket.view_entries(), bt)]
                {
                    &&& rendered_map(self.connections_by_host.view_entries(), bh)
                    &&& rendered_map(self.connections_by_database.view_entries(), bd)
                    &&& rendered_map(self.connections_by_user.view_entries(), bu)
                    &&& rendered_map(self.connections_by_appname.view_entries(), ba)
                    &&& rendered_map(
                        self.connection_attempts_by_time_bucket.view_entries(),
                        bt,
                    )
                    &&& out@ == total_line(
                        sb("Total connection attempts: "),
                        self.total_connection_attempts,
                    ) + total_line(
                        sb("Total authenticated connections: "),
                        self.total_authenticated,
                    ) + total_line(
                        sb("Total authenticated SSL connections: "),
                        self.total_authenticated_ssl,
                    ) + total_line(
                        sb("Total connection failures: "),
                        self.connection_failures,
                    ) + sb("Connections by host:\n") + bh + sb("Connections by database:\n")
                        + bd + sb("Connections by user:\n") + bu + sb(
                        "Connections by application name:\n",
                    ) + ba + sb("Connections by time bucket:\n") + bt
                },
    {
        let mut out: Vec<u8> = Vec::new();
        push_lit(&mut out, "Total connection attempts: ");
        push_dec(&mut out, self.total_connection_attempts);
        out.push(10);
        push_lit(&mut out, "Total authenticated connections: ");
        push_dec(&mut out, self.total_authenticated);
        out.push(10);
        push_lit(&mut out, "Total authenticated SSL connections: ");
        push_dec(&mut out, self.total_authenticated_ssl);
        out.push(10);
        push_lit(&mut out, "Total connection failures: ");
        push_dec(&mut out, self.connection_failures);
        out.push(10);
        push_lit(&mut out, "Connections by host:\n");
        let bh = Self::render_map(&mut out, &self.connections_by_host);
        push_lit(&mut out, "Connections by database:\n");
        let bd = Self::render_map(&mut out, &self.connections_by_database);
        push_lit(&mut out, "Connections by user:\n");
        let bu = Self::render_map(&mut out, &self.connections_by_user);
        push_lit(&mut out, "Connections by application name:\n");
        let ba = Self::render_map(&mut out, &self.connections_by_appname);
        push_lit(&mut out, "Connections by time bucket:\n");
        let bt = Self::render_map(&mut out, &self.connection_attempts_by_time_bucket);
        proof {
            assert(out@ =~= total_line(
                sb("Total connection attempts: "),
                self.total_connection_attempts,
            ) + total_line(
                sb("Total authenticated connections: "),
                self.total_authenticated,
            ) + total_line(
                sb("Total authenticated SSL connections: "),
                self.total_authenticated_ssl,
            ) + total_line(sb("Total connection failures: "), self.connection_failures) + sb(
                "Connections by host:\n",
            ) + bh@ + sb("Connections by database:\n") + bd@ + sb("Connections by user:\n")
                + bu@ + sb("Connections by application name:\n") + ba@ + sb(
                "Connections by time bucket:\n",
            ) + bt@);
        }
        out
    }

    /// Append one map's count lines in print order; hands back a copy of
    /// the appended segment.
    fn render_map(out: &mut Vec<u8>, map: &CountMap) -> (seg: Vec<u8>)
        ensures
            rendered_map(map.view_entries(), seg@),
            final(out)@ == old(out)@ + seg@,
    {
        let sorted = map.sorted_entries();
        let ghost sv = crate::countmap::view_of(sorted@);
        let mut seg: Vec<u8> = Vec::new();
        proof {
            assert(sv.subrange(0, 0) =~= Seq::<(Seq<u8>, u64)>::empty());
            assert(seg@ =~= crate::render::count_lines_of(sv.subrange(0, 0)));
        }
        let n = sorted.len();
        let mut i: usize = 0;
        while i < n
            invariant
                i <= n,
                n == sorted@.len(),
                sv == crate::countmap::view_of(sorted@),
                seg@ == crate::render::count_lines_of(sv.subrange(0, i as int)),
            decreases n - i,
        {
            push_count_line(&mut seg, sorted[i].1, sorted[i].0.as_slice());
            proof {
                assert(sv.subrange(0, i + 1).drop_last() =~= sv.subrange(0, i as int));
                assert(sv.subrange(0, i + 1).last() == sv[i as int]);
                assert(sv[i as int] == (sorted@[i as int].0@, sorted@[i as int].1));
            }
            i = i + 1;
        }
        proof {
            assert(sv.subrange(0, n as int) =~= sv);
            assert(crate::countmap::is_print_sorted(map.view_entries(), sv));
        }
        crate::render::push_bytes(out, seg.as_slice());
        seg
    }
}

} // verus!
