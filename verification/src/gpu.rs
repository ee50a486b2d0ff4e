pub mod storage_buffer;
