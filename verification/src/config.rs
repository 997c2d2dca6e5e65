//! Server configuration, built from the startup arguments.
use crate::cli::Args;
use crate::numbers::dec_digits;
use crate::replication::default_host_bytes;
use vstd::prelude::*;

verus! {

#[derive(Clone)]
pub struct Config {
    pub dir: Vec<u8>,
    pub dbfilename: Vec<u8>,
    pub server_address: Vec<u8>,
    pub server_port: u16,
}

// "~/redis-rust"
pub open spec fn default_config_dir_bytes() -> Seq<u8> {
    seq![126u8, 47u8, 114u8, 101u8, 100u8, 105u8, 115u8, 45u8, 114u8, 117u8, 115u8, 116u8]
}

impl Config {
    /// Directory, file name and port from the arguments; the bind address
    /// keeps its default.
    pub fn new(args: Args) -> (r: Config)
        ensures
            r.dir == args.dir,
            r.dbfilename == args.dbfilename,
            r.server_port == args.port,
            r.server_address@ == default_host_bytes(),
    {
        let address = vec![49u8, 50u8, 55u8, 46u8, 48u8, 46u8, 48u8, 46u8, 49u8];
        proof {
            assert(address@ =~= default_host_bytes());
        }
        Config {
            dir: args.dir,
            dbfilename: args.dbfilename,
            server_address: address,
            server_port: args.port,
        }
    }

    /// `<dir>/<dbfilename>`.
    pub fn full_rdb_path(&self) -> (r: Vec<u8>)
        ensures
            r@ == self.dir@ + seq![47u8] + self.dbfilename@,
    {
        let mut out = crate::resp::copy_range(self.dir.as_slice(), 0, self.dir.len());
        out.push(47);
        crate::datatypes::push_all(&mut out, self.dbfilename.as_slice());
        proof {
            assert(out@ =~= self.dir@ + seq![47u8] + self.dbfilename@);
        }
        out
    }

    /// `<address>:<port>`.
    pub fn server_bind_address(&self) -> (r: Vec<u8>)
        ensures
            r@ == self.server_address@ + seq![58u8] + dec_digits(self.server_port as nat),
    {
        let mut out = crate::resp::copy_range(
            self.server_address.as_slice(),
            0,
            self.server_address.len(),
        );
        out.push(58);
        let digits = crate::numbers::format_u64(self.server_port as u64);
        crate::datatypes::push_all(&mut out, digits.as_slice());
        proof {
            assert(out@ =~= self.server_address@ + seq![58u8] + dec_digits(
                self.server_port as nat,
            ));
        }
        out
    }
}

impl Default for Config {
    fn default() -> (r: Config)
        ensures
            r.dir@ == default_config_dir_bytes(),
            r.dbfilename@ == crate::cli::default_dbfilename_bytes(),
            r.server_address@ == default_host_bytes(),
            r.server_port == 6379,
    {
        let dir = vec![
            126u8,
            47u8,
            114u8,
            101u8,
            100u8,
            105u8,
            115u8,
            45u8,
            114u8,
            117u8,
            115u8,
            116u8,
        ];
        let dbfilename = vec![100u8, 117u8, 109u8, 112u8, 46u8, 114u8, 100u8, 98u8];
        let address = vec![49u8, 50u8, 55u8, 46u8, 48u8, 46u8, 48u8, 46u8, 49u8];
        proof {
            assert(dir@ =~= default_config_dir_bytes());
            assert(dbfilename@ =~= crate::cli::default_dbfilename_bytes());
            assert(address@ =~= default_host_bytes());
        }
        Config { dir, dbfilename, server_address: address, server_port: 6379 }
    }
}

} // verus!
