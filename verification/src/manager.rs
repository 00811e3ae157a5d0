//! The manager object and the object paths of the readers.
//!
//! Readers are served at `/net/reactivated/Fprint/Device/<n>`, numbered in discovery order from
//! zero; the manager at `/net/reactivated/Fprint/Manager` lists them and names the last one the
//! default.

use vstd::prelude::*;

use crate::error::DaemonError;
use crate::text::{decimal, decimal_string};

verus! {

/// The object path of the manager.
pub fn manager_path() -> (p: &'static str)
    ensures
        p@ == "/net/reactivated/Fprint/Manager"@,
{
    "/net/reactivated/Fprint/Manager"
}

/// The object path of the reader discovered `index`-th.
pub fn device_object_path(index: usize) -> (p: String)
    ensures
        p@ == "/net/reactivated/Fprint/Device/"@ + decimal(index as nat),
{
    let number = decimal_string(index);
    String::from_str("/net/reactivated/Fprint/Device/").concat(number.as_str())
}

/// The object paths of `count` readers, in discovery order.
pub fn device_object_paths(count: usize) -> (r: Vec<String>)
    ensures
        r@.len() == count,
        forall|k: int| 0 <= k < count ==> (#[trigger] r@[k])@ == "/net/reactivated/Fprint/Device/"@ + decimal(k as nat),
{
    let mut out: Vec<String> = Vec::with_capacity(count);
    let mut k: usize = 0;
    while k < count
        invariant
            k <= count,
            out@.len() == k,
            forall|j: int| 0 <= j < k ==> (#[trigger] out@[j])@ == "/net/reactivated/Fprint/Device/"@ + decimal(j as nat),
        decreases count - k,
    {
        out.push(device_object_path(k));
        k += 1;
    }
    out
}

/// The manager: the readers' object paths, in discovery order.
pub struct Manager {
    device_paths: Vec<String>,
}

impl Manager {
    /// The readers' paths, as views.
    pub closed spec fn paths(&self) -> Seq<Seq<char>> {
        self.device_paths@.map_values(|p: String| p@)
    }

    /// A manager over the given paths, in discovery order.
    pub fn new(device_paths: Vec<String>) -> (m: Manager)
        ensures
            m.paths() == device_paths@.map_values(|p: String| p@),
    {
        Manager { device_paths }
    }

    /// Every reader's path; empty when none is attached.
    pub fn get_devices(&self) -> (r: Vec<String>)
        ensures
            r@.map_values(|p: String| p@) == self.paths(),
    {
        let mut out: Vec<String> = Vec::with_capacity(self.device_paths.len());
        let mut k: usize = 0;
        while k < self.device_paths.len()
            invariant
                k <= self.device_paths@.len(),
                out@.len() == k,
                forall|j: int| 0 <= j < k ==> (#[trigger] out@[j])@ == self.device_paths@[j]@,
            decreases self.device_paths@.len() - k,
        {
            out.push(self.device_paths[k].clone());
            k += 1;
        }
        assert(out@.map_values(|p: String| p@) =~= self.paths());
        out
    }

    /// The default reader: the last one discovered, or `NoSuchDevice` ("No devices available")
    /// when there is none.
    pub fn get_default_device(&self) -> (r: Result<String, DaemonError>)
        ensures
            self.paths().len() == 0 ==> (r matches Err(e) && (e matches DaemonError::NoSuchDevice(m) && m@
                == "No devices available"@)),
            self.paths().len() > 0 ==> (r matches Ok(p) && p@ == self.paths().last()),
    {
        let n = self.device_paths.len();
        if n == 0 {
            Err(DaemonError::NoSuchDevice(String::from_str("No devices available")))
        } else {
            Ok(self.device_paths[n - 1].clone())
        }
    }
}

} // verus!
