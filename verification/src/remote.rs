//! The remote side: connections that it makes to the proxy, the console selection on a
//! FIFO, and connections to it that are being established.
use nix::errno::Errno;
use vstd::prelude::*;
use crate::errno::{errno_is_connect_pending, is_connect_pending};
use crate::fdset::selectable;
use crate::number::{number_in, parse_number};
use crate::port::{PortId, PortView, RawFd, NO_FD};
use crate::state::{ProxyState, ProxyView, MAX_FIFO_BUF};

verus! {

/// The byte that ends a line.
pub const NEWLINE: u8 = 10;

/// The byte that may stand before the end of a line.
pub const RETURN: u8 = 13;

/// What `Errno::from_raw` returns for an error number.
pub uninterp spec fn errno_from_raw(err: i32) -> Errno;

/// `nix::errno::Errno::from_raw` gives the error that an error number stands for. It looks
/// the number up in a table of constants, so the result depends on the number alone; the
/// table is not written out here.
pub assume_specification[ Errno::from_raw ](err: i32) -> (r: Errno)
    ensures
        r == errno_from_raw(err),
;

/// How far a connection that is being established has come.
#[derive(Debug, Clone, Copy, PartialEq, Eq, Structural)]
pub enum ConnectState {
    Established,
    Pending,
    Failed,
}

/// How far a connection has come whose socket reports `error`, or could not be asked. An
/// error number of zero means that there is no error.
pub open spec fn connect_state(error: Result<i32, Errno>) -> ConnectState {
    match error {
        Ok(err) => if err == 0 {
            ConnectState::Established
        } else if is_connect_pending(errno_from_raw(err)) {
            ConnectState::Pending
        } else {
            ConnectState::Failed
        },
        Err(_) => ConnectState::Failed,
    }
}

/// The bytes of `line` before the first zero, as characters.
pub open spec fn line_text(line: Seq<u8>) -> Seq<char>
    decreases line.len(),
{
    if line.len() == 0 || line[0] == 0 {
        Seq::empty()
    } else {
        seq![line[0] as char] + line_text(line.skip(1))
    }
}

/// The port number on `line`, or 0 where there is none.
pub open spec fn selected_port(line: Seq<u8>) -> u16 {
    match number_in(line_text(line), 10, 65535) {
        Some(n) => n as u16,
        None => 0,
    }
}

impl ProxyView {
    /// The state in which the port `id` uses the descriptor `fd` in place of its own, which
    /// is no longer waited on.
    pub open spec fn moved_to(self, id: PortId, fd: RawFd) -> ProxyView {
        let p = self.ports[id];
        let s = ProxyView { rds: self.rds.remove(p.sock).insert(fd), ..self };
        s.with_port(id, PortView { sock: fd, ..p }).refreshed().dirty()
    }

    /// The state after the remote connected to the listening port `id` on `fd`. The port
    /// carries that connection, and listens again when it is over.
    pub open spec fn remote_accepted(self, id: PortId, fd: RawFd) -> ProxyView {
        if self.listen_fd < 0 {
            ProxyView { listen_fd: self.ports[id].sock, ..self.moved_to(id, fd) }
        } else {
            self
        }
    }

    /// The state after the console that was selected on the FIFO `id` was connected on `fd`.
    pub open spec fn fifo_connected(self, id: PortId, fd: RawFd) -> ProxyView {
        if self.fifo_con_fd < 0 {
            ProxyView { fifo_con_fd: self.ports[id].sock, ..self.moved_to(id, fd) }
        } else {
            self
        }
    }

    /// The selection line after one more byte, and the port that it selects if it is over.
    /// A line that grows too long is dropped.
    pub open spec fn fifo_byte(self, b: u8) -> (ProxyView, Option<u16>) {
        if b == NEWLINE {
            (
                ProxyView { fifo_line: Seq::empty(), ..self },
                Some(selected_port(self.fifo_line)),
            )
        } else if b == RETURN {
            (self, None)
        } else {
            let line = self.fifo_line.push(b);
            (
                ProxyView {
                    fifo_line: if line.len() >= MAX_FIFO_BUF {
                        Seq::empty()
                    } else {
                        line
                    },
                    ..self
                },
                None,
            )
        }
    }

    /// The state after the FIFO of the port `id` was closed by its writer.
    pub open spec fn fifo_ended(self, id: PortId) -> ProxyView {
        let fd = self.ports[id].sock;
        let s = self.closing(fd);
        ProxyView { rds: s.rds.remove(fd), ..s }
    }

    /// The state after the FIFO of the port `id` was opened again on `fd`.
    pub open spec fn fifo_reopened(self, id: PortId, fd: RawFd) -> ProxyView {
        let s = self.with_port(id, PortView { sock: fd, ..self.ports[id] });
        ProxyView { rds: s.rds.insert(fd), ..s }.refreshed().dirty()
    }

    /// The state after the connection of the port `id` turned out to be `c`; the result is
    /// `false` where it failed.
    pub open spec fn connect_finished(self, id: PortId, c: ConnectState) -> (ProxyView, bool) {
        let p = self.ports[id];
        if !self.has(id) || !p.connecting {
            (self, true)
        } else {
            match c {
                ConnectState::Established => {
                    let s = self.with_port(id, PortView { connecting: false, ..p });
                    (
                        ProxyView {
                            rds: s.rds.insert(p.sock),
                            wds: if p.tx_buf.len() > 0 {
                                s.wds.insert(p.sock)
                            } else {
                                s.wds.remove(p.sock)
                            },
                            ..s
                        }.dirty(),
                        true,
                    )
                },
                ConnectState::Pending => (
                    ProxyView { wds: self.wds.insert(p.sock), ..self },
                    true,
                ),
                ConnectState::Failed => (self, false),
            }
        }
    }
}

/// The bytes of `line` before the first zero, as characters.
fn text_of_line(line: &Vec<u8>) -> (s: String)
    ensures
        s@ == line_text(line@),
{
    let mut s = String::new();
    let mut i: usize = 0;
    proof {
        assert(line@.skip(0) =~= line@);
        assert(s@ + line_text(line@) =~= line_text(line@));
    }
    while i < line.len() && line[i] != 0
        invariant
            i <= line@.len(),
            s@ + line_text(line@.skip(i as int)) == line_text(line@),
        decreases line@.len() - i,
    {
        let ghost before = s@;
        let c = line[i] as char;
        s.push(c);
        proof {
            let rest = line@.skip(i as int);
            assert(rest.skip(1) =~= line@.skip(i + 1));
            assert(before.push(c) + line_text(rest.skip(1)) =~= before + (seq![c] + line_text(
                rest.skip(1),
            )));
        }
        i = i + 1;
    }
    proof {
        assert(line_text(line@.skip(i as int)) =~= Seq::<char>::empty());
        assert(s@ + Seq::<char>::empty() =~= s@);
    }
    s
}

impl ProxyState {
    fn move_to(&mut self, id: PortId, fd: RawFd)
        requires
            old(self).wf(),
            old(self)@.has(id),
            selectable(fd),
        ensures
            final(self).wf(),
            final(self)@ == old(self)@.moved_to(id, fd),
    {
        let mut sock: RawFd = NO_FD;
        if let Some(p) = self.ports.get_mut(id) {
            sock = p.sock;
            p.sock = fd;
        }
        self.master_rds.remove(sock);
        self.master_rds.insert(fd);
        self.refresh_nsockhandle();
        self.status_dirty = true;
    }

    fn sock_of(&self, id: PortId) -> (fd: RawFd)
        requires
            self@.has(id),
        ensures
            fd == self@.ports[id].sock,
    {
        match self.ports.get(id) {
            Some(p) => p.sock,
            None => NO_FD,
        }
    }

    /// Serves the listening remote `id`, which accepted a connection on `fd`.
    pub fn handle_remote_port_accept(&mut self, id: PortId, fd: RawFd)
        requires
            old(self).wf(),
            old(self)@.has(id),
            selectable(fd),
        ensures
            final(self).wf(),
            final(self)@ == old(self)@.remote_accepted(id, fd),
    {
        if self.listen_fd < 0 {
            let sock = self.sock_of(id);
            self.move_to(id, fd);
            self.listen_fd = sock;
        }
    }

    /// Takes one byte of a console selection. The result is the port on the local host that
    /// is to be connected, where the byte ends a line.
    pub fn handle_remote_port_fifo_con_read(&mut self, b: u8) -> (r: Option<u16>)
        requires
            old(self).wf(),
        ensures
            final(self).wf(),
            (final(self)@, r) == old(self)@.fifo_byte(b),
    {
        if b == NEWLINE {
            let text = text_of_line(&self.fifo_line);
            let port = match parse_number(text.as_str(), 10, 65535) {
                Some(n) => n as u16,
                None => 0,
            };
            self.fifo_line = Vec::new();
            return Some(port);
        }
        if b != RETURN {
            self.fifo_line.push(b);
            if self.fifo_line.len() >= MAX_FIFO_BUF {
                self.fifo_line = Vec::new();
            }
        }
        None
    }

    /// Takes `fd`, the connection to the console that was selected on the FIFO `id`.
    pub fn fifo_connected(&mut self, id: PortId, fd: RawFd)
        requires
            old(self).wf(),
            old(self)@.has(id),
            selectable(fd),
        ensures
            final(self).wf(),
            final(self)@ == old(self)@.fifo_connected(id, fd),
    {
        if self.fifo_con_fd < 0 {
            let sock = self.sock_of(id);
            self.move_to(id, fd);
            self.fifo_con_fd = sock;
        }
    }

    /// Lets go of the FIFO of the port `id`, which its writer closed.
    pub fn fifo_ended(&mut self, id: PortId)
        requires
            old(self).wf(),
            old(self)@.has(id),
        ensures
            final(self).wf(),
            final(self)@ == old(self)@.fifo_ended(id),
    {
        let sock = self.sock_of(id);
        self.close_fd(sock);
        self.master_rds.remove(sock);
    }

    /// Takes `fd`, on which the FIFO of the port `id` was opened again.
    pub fn fifo_reopened(&mut self, id: PortId, fd: RawFd)
        requires
            old(self).wf(),
            old(self)@.has(id),
            selectable(fd),
        ensures
            final(self).wf(),
            final(self)@ == old(self)@.fifo_reopened(id, fd),
    {
        if let Some(p) = self.ports.get_mut(id) {
            p.sock = fd;
        }
        self.master_rds.insert(fd);
        self.refresh_nsockhandle();
        self.status_dirty = true;
    }

    /// Takes how far the connection of the port `id` has come. The result is `false` where
    /// it failed.
    pub fn connect_finished(&mut self, id: PortId, c: ConnectState) -> (r: bool)
        requires
            old(self).wf(),
        ensures
            final(self).wf(),
            (final(self)@, r) == old(self)@.connect_finished(id, c),
    {
        let (sock, pending) = match self.ports.get(id) {
            Some(p) => {
                if !p.connecting {
                    return true;
                }
                (p.sock, p.tx_buf.len() > 0)
            },
            None => {
                return true;
            },
        };
        match c {
            ConnectState::Established => {
                if let Some(p) = self.ports.get_mut(id) {
                    p.connecting = false;
                }
                self.master_rds.insert(sock);
                if pending {
                    self.master_wds.insert(sock);
                } else {
                    self.master_wds.remove(sock);
                }
                self.status_dirty = true;
                true
            },
            ConnectState::Pending => {
                self.master_wds.insert(sock);
                true
            },
            ConnectState::Failed => false,
        }
    }

    /// Goes on with the connection of the port `id`, whose socket reports `error` or could
    /// not be asked. The result is `false` where the connection failed.
    pub fn finish_pending_connect(&mut self, id: PortId, error: Result<i32, Errno>) -> (r: bool)
        requires
            old(self).wf(),
        ensures
            final(self).wf(),
            (final(self)@, r) == old(self)@.connect_finished(id, connect_state(error)),
    {
        let c = match error {
            Ok(err) => {
                if err == 0 {
                    ConnectState::Established
                } else if errno_is_connect_pending(Errno::from_raw(err)) {
                    ConnectState::Pending
                } else {
                    ConnectState::Failed
                }
            },
            Err(_) => ConnectState::Failed,
        };
        self.connect_finished(id, c)
    }
}

} // verus!
